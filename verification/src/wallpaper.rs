//! The desktop wallpaper: a 640 by 360, 24-bit BMP image scaled to the
//! screen.
use vstd::prelude::*;

verus! {

/// The little-endian 32-bit number at `off` of `b`.
pub open spec fn le_u32(b: Seq<u8>, off: int) -> int {
    b[off] + 256 * b[off + 1] + 65536 * b[off + 2] + 16777216 * b[off + 3]
}

/// The little-endian 16-bit number at `off` of `b`.
pub open spec fn le_u16(b: Seq<u8>, off: int) -> int {
    b[off] + 256 * b[off + 1]
}

/// Why the image `b` cannot be used, if it cannot: shorter than its
/// header, not a BMP file, not 640 by 360 pixels, or not 24 bits a pixel.
pub open spec fn bmp_error(b: Seq<u8>) -> Option<&'static str> {
    if b.len() < 54 {
        Some("BMP data too short")
    } else if b[0] != 66 || b[1] != 77 {
        Some("Not a BMP file")
    } else if le_u32(b, 18) != 640 || le_u32(b, 22) != 360 {
        Some("Unsupported resolution. Must be 640x360")
    } else if le_u16(b, 28) != 24 {
        Some("Unsupported bits per pixel. Must be 24-bit BGR")
    } else {
        None
    }
}

/// Byte `k` of screen pixel `(dx, dy)` of a screen `sw` by `sh`: the image
/// pixel its position scales to, rows stored bottom up, in blue, green,
/// red order or (unless `is_bgr`) red, green, blue.
pub open spec fn wallpaper_byte(b: Seq<u8>, sw: int, sh: int, is_bgr: bool, dy: int, dx: int, k: int) -> u8 {
    let off = le_u32(b, 10) + (359 - dy * 360 / sh) * 1920 + (dx * 640 / sw) * 3;
    if is_bgr {
        b[off + k]
    } else {
        b[off + 2 - k]
    }
}

/// A valid image holds its pixel rows after its data offset.
pub open spec fn pixels_present(b: Seq<u8>) -> bool {
    bmp_error(b) is None ==> le_u32(b, 10) + 640 * 360 * 3 <= b.len()
}

/// The 32-bit little-endian number at `off` of `b`.
fn read_le_u32(b: &[u8], off: usize) -> (r: u32)
    requires
        off + 4 <= b@.len(),
    ensures
        r == le_u32(b@, off as int),
{
    (b[off] as u32) + 256 * (b[off + 1] as u32) + 65536 * (b[off + 2] as u32) + 16777216 * (b[off + 3] as u32)
}

/// Decodes the wallpaper image `bmp_data` into `cache`, scaled to a screen
/// `sw` by `sh`, three bytes a pixel row by row; see `bmp_error` and
/// `wallpaper_byte`. On an error the cache is left alone.
pub fn decode_bmp(bmp_data: &[u8], sw: usize, sh: usize, is_bgr: bool, cache: &mut Vec<u8>) -> (r: Result<
    (),
    &'static str,
>)
    requires
        pixels_present(bmp_data@),
        sw * sh * 3 <= old(cache)@.len(),
        sw * 640 <= usize::MAX,
        sh * 360 <= usize::MAX,
    ensures
        final(cache)@.len() == old(cache)@.len(),
        match bmp_error(bmp_data@) {
            Some(e) => r == Err::<(), &'static str>(e) && final(cache)@ == old(cache)@,
            None => {
                &&& r is Ok
                &&& forall|dy: int, dx: int, k: int|
                    0 <= dy < sh && 0 <= dx < sw && 0 <= k < 3 ==> #[trigger] final(cache)@[dy * sw * 3 + dx * 3 + k]
                        == wallpaper_byte(bmp_data@, sw as int, sh as int, is_bgr, dy, dx, k)
                &&& forall|p: int| sw * sh * 3 <= p < old(cache)@.len() ==> #[trigger] final(cache)@[p] == old(cache)@[p]
            },
        },
{
    if bmp_data.len() < 54 {
        return Err("BMP data too short");
    }
    if bmp_data[0] != 66u8 || bmp_data[1] != 77u8 {
        return Err("Not a BMP file");
    }
    let data_offset = read_le_u32(bmp_data, 10) as usize;
    let width = read_le_u32(bmp_data, 18);
    let height = read_le_u32(bmp_data, 22);
    let bpp = (bmp_data[28] as u32) + 256 * (bmp_data[29] as u32);
    if width != 640 || height != 360 {
        return Err("Unsupported resolution. Must be 640x360");
    }
    if bpp != 24 {
        return Err("Unsupported bits per pixel. Must be 24-bit BGR");
    }
    let ghost c0 = cache@;
    let ghost b = bmp_data@;
    let total = bmp_data.len();
    let cache_len = cache.len();
    let mut dy: usize = 0;
    while dy < sh
        invariant
            bmp_error(b) is None,
            b == bmp_data@,
            data_offset == le_u32(b, 10),
            data_offset + 640 * 360 * 3 <= b.len(),
            sw * sh * 3 <= c0.len(),
            sw * 640 <= usize::MAX,
            sh * 360 <= usize::MAX,
            total == b.len(),
            cache_len == c0.len(),
            dy <= sh,
            cache@.len() == c0.len(),
            forall|y: int, x: int, k: int|
                0 <= y < dy && 0 <= x < sw && 0 <= k < 3 ==> #[trigger] cache@[y * sw * 3 + x * 3 + k]
                    == wallpaper_byte(b, sw as int, sh as int, is_bgr, y, x, k),
            forall|p: int| dy * sw * 3 <= p < c0.len() ==> #[trigger] cache@[p] == c0[p],
        decreases sh - dy,
    {
        proof {
            assert(dy * 360 / (sh as int) < 360) by (nonlinear_arith)
                requires
                    dy < sh,
            ;
            assert(dy * 360 <= sh * 360) by (nonlinear_arith)
                requires
                    dy < sh,
            ;
            assert((dy + 1) * sw * 3 <= sw * sh * 3) by (nonlinear_arith)
                requires
                    dy < sh,
            ;
            assert(dy * sw * 3 + sw * 3 == (dy + 1) * sw * 3) by (nonlinear_arith);
            assert(dy * sw <= dy * sw * 3) by (nonlinear_arith);
            assert((359 - dy * 360 / (sh as int)) * 1920 <= 359 * 1920) by (nonlinear_arith)
                requires
                    0 <= 359 - dy * 360 / (sh as int) < 360,
            ;
        }
        let src_y = 360 - 1 - (dy * 360 / sh);
        let src_row_start = data_offset + src_y * 640 * 3;
        let dest_row_start = dy * sw * 3;
        let mut dx: usize = 0;
        while dx < sw
            invariant
                bmp_error(b) is None,
                b == bmp_data@,
                data_offset == le_u32(b, 10),
                data_offset + 640 * 360 * 3 <= b.len(),
                sw * sh * 3 <= c0.len(),
                sw * 640 <= usize::MAX,
                total == b.len(),
                cache_len == c0.len(),
                dy < sh,
                0 <= src_y < 360,
                src_y == 359 - dy * 360 / (sh as int),
                src_row_start == data_offset + src_y * 1920,
                dest_row_start == dy * sw * 3,
                (dy + 1) * sw * 3 <= sw * sh * 3,
                dy * sw * 3 + sw * 3 == (dy + 1) * sw * 3,
                dx <= sw,
                cache@.len() == c0.len(),
                forall|y: int, x: int, k: int|
                    0 <= y < dy && 0 <= x < sw && 0 <= k < 3 ==> #[trigger] cache@[y * sw * 3 + x * 3 + k]
                        == wallpaper_byte(b, sw as int, sh as int, is_bgr, y, x, k),
                forall|x: int, k: int|
                    0 <= x < dx && 0 <= k < 3 ==> #[trigger] cache@[dy * sw * 3 + x * 3 + k] == wallpaper_byte(
                        b,
                        sw as int,
                        sh as int,
                        is_bgr,
                        dy as int,
                        x,
                        k,
                    ),
                forall|p: int| dy * sw * 3 + dx * 3 <= p < c0.len() ==> #[trigger] cache@[p] == c0[p],
            decreases sw - dx,
        {
            proof {
                assert(dx * 640 / (sw as int) < 640) by (nonlinear_arith)
                    requires
                        dx < sw,
                ;
                assert(dx * 640 <= sw * 640) by (nonlinear_arith)
                    requires
                        dx < sw,
                ;
            }
            let src_x = dx * 640 / sw;
            assert(src_x * 3 <= 639 * 3);
            assert(dy * sw * 3 + dx * 3 + 2 < (dy + 1) * sw * 3);
            let src_pixel_offset = src_row_start + src_x * 3;
            let dest_pixel_offset = dest_row_start + dx * 3;
            let bb = bmp_data[src_pixel_offset];
            let g = bmp_data[src_pixel_offset + 1];
            let r = bmp_data[src_pixel_offset + 2];
            let ghost before = cache@;
            if is_bgr {
                cache.set(dest_pixel_offset, bb);
                cache.set(dest_pixel_offset + 1, g);
                cache.set(dest_pixel_offset + 2, r);
            } else {
                cache.set(dest_pixel_offset, r);
                cache.set(dest_pixel_offset + 1, g);
                cache.set(dest_pixel_offset + 2, bb);
            }
            proof {
                assert forall|y: int, x: int, k: int|
                    0 <= y < dy && 0 <= x < sw && 0 <= k < 3 implies #[trigger] cache@[y * sw * 3 + x * 3 + k]
                    == wallpaper_byte(b, sw as int, sh as int, is_bgr, y, x, k) by {
                    assert(y * sw * 3 + x * 3 + k < dy * sw * 3) by (nonlinear_arith)
                        requires
                            0 <= y < dy,
                            0 <= x < sw,
                            0 <= k < 3,
                    ;
                    assert(before[y * sw * 3 + x * 3 + k] == wallpaper_byte(b, sw as int, sh as int, is_bgr, y, x, k));
                }
            }
            dx = dx + 1;
        }
        proof {
            assert forall|y: int, x: int, k: int|
                0 <= y < dy + 1 && 0 <= x < sw && 0 <= k < 3 implies #[trigger] cache@[y * sw * 3 + x * 3 + k]
                == wallpaper_byte(b, sw as int, sh as int, is_bgr, y, x, k) by {
                if y == dy {
                    assert(cache@[dy * sw * 3 + x * 3 + k] == wallpaper_byte(b, sw as int, sh as int, is_bgr, dy as int, x, k));
                }
            }
        }
        dy = dy + 1;
    }
    assert(sh * sw * 3 == sw * sh * 3) by (nonlinear_arith);
    Ok(())
}

} // verus!
