use rustanium::graphics::BackBuffer;

fn screen(w: i32, h: i32, format: u32) -> BackBuffer {
    BackBuffer { data: vec![0u8; (w * h * 3) as usize], width: w, height: h, format }
}

fn px(s: &BackBuffer, x: i32, y: i32) -> [u8; 3] {
    let i = ((y * s.width + x) * 3) as usize;
    [s.data[i], s.data[i + 1], s.data[i + 2]]
}

fn lit(s: &BackBuffer) -> Vec<(i32, i32)> {
    let mut v = Vec::new();
    for y in 0..s.height {
        for x in 0..s.width {
            if px(s, x, y) != [0, 0, 0] {
                v.push((x, y));
            }
        }
    }
    v
}

#[test]
fn pixels_follow_the_byte_order() {
    let mut s = screen(4, 3, 0);
    s.draw_pixel(1, 2, 10, 20, 30);
    assert_eq!(px(&s, 1, 2), [30, 20, 10]);
    let mut t = screen(4, 3, 1);
    t.draw_pixel(1, 2, 10, 20, 30);
    assert_eq!(px(&t, 1, 2), [10, 20, 30]);
    t.draw_pixel(4, 0, 1, 1, 1);
    t.draw_pixel(-1, 0, 1, 1, 1);
    assert_eq!(lit(&t), vec![(1, 2)]);
}

#[test]
fn alpha_blending() {
    let mut s = screen(2, 1, 1);
    s.draw_pixel_alpha(0, 0, 255, 255, 255, 128);
    assert_eq!(px(&s, 0, 0), [128, 128, 128]);
    s.draw_pixel_alpha(0, 0, 0, 0, 0, 0);
    assert_eq!(px(&s, 0, 0), [128, 128, 128]);
    s.draw_pixel_alpha(1, 0, 7, 8, 9, 255);
    assert_eq!(px(&s, 1, 0), [7, 8, 9]);
    s.draw_rect_alpha(0, 0, 2, 1, 0, 0, 0, 255);
    assert!(lit(&s).is_empty());
}

#[test]
fn rectangles_are_clipped() {
    let mut s = screen(4, 3, 1);
    s.draw_rect(-1, -1, 3, 3, 5, 5, 5);
    assert_eq!(lit(&s), vec![(0, 0), (1, 0), (0, 1), (1, 1)]);
    let mut t = screen(4, 3, 1);
    t.draw_rect(1, 1, 0, 5, 5, 5, 5);
    assert!(lit(&t).is_empty());
}

#[test]
fn outlines() {
    let mut s = screen(4, 3, 1);
    s.draw_rect_outline(0, 0, 4, 3, 9, 9, 9, 1);
    assert_eq!(lit(&s).len(), 10);
    assert_eq!(px(&s, 1, 1), [0, 0, 0]);
}

#[test]
fn the_cursor() {
    let mut s = screen(8, 12, 1);
    for b in s.data.iter_mut() {
        *b = 100;
    }
    s.draw_cursor(0, 0);
    assert_eq!(px(&s, 0, 0), [0, 0, 0]);
    assert_eq!(px(&s, 1, 1), [255, 255, 255]);
    assert_eq!(px(&s, 7, 0), [100, 100, 100]);
    assert_eq!(px(&s, 0, 11), [100, 100, 100]);
}

#[test]
fn vertical_gradient() {
    let mut s = screen(2, 3, 1);
    s.draw_gradient(0, 30, 90, 30, 0, 90);
    assert_eq!(px(&s, 0, 0), [0, 30, 90]);
    assert_eq!(px(&s, 1, 1), [10, 20, 90]);
    assert_eq!(px(&s, 0, 2), [20, 10, 90]);
}

#[test]
fn bresenham_lines() {
    let mut s = screen(5, 3, 1);
    s.draw_line(0, 0, 3, 1, 1, 1, 1);
    assert_eq!(lit(&s), vec![(0, 0), (1, 0), (2, 1), (3, 1)]);
    let mut t = screen(5, 3, 1);
    t.draw_line(3, 1, 0, 0, 1, 1, 1);
    assert_eq!(lit(&t).len(), 4);
    assert!(lit(&t).contains(&(3, 1)) && lit(&t).contains(&(0, 0)));
    let mut p = screen(5, 3, 1);
    p.draw_line(2, 2, 2, 2, 1, 1, 1);
    assert_eq!(lit(&p), vec![(2, 2)]);
    let mut q = screen(5, 3, 1);
    q.draw_line_thick(0, 0, 3, 0, 1, 1, 1);
    assert_eq!(lit(&q), vec![(0, 0), (1, 0), (2, 0), (3, 0), (0, 1), (1, 1), (2, 1), (3, 1)]);
}

use rustanium::wallpaper::decode_bmp;

fn bmp(width: u32, height: u32, bpp: u16) -> Vec<u8> {
    let mut b = vec![0u8; 54 + 640 * 360 * 3];
    b[0] = b'B';
    b[1] = b'M';
    b[10..14].copy_from_slice(&54u32.to_le_bytes());
    b[18..22].copy_from_slice(&width.to_le_bytes());
    b[22..26].copy_from_slice(&height.to_le_bytes());
    b[28..30].copy_from_slice(&bpp.to_le_bytes());
    // stored row r (bottom up), column c: blue = c % 256, green = r % 256, red = 7
    for r in 0..360usize {
        for c in 0..640usize {
            let o = 54 + (r * 640 + c) * 3;
            b[o] = (c % 256) as u8;
            b[o + 1] = (r % 256) as u8;
            b[o + 2] = 7;
        }
    }
    b
}

#[test]
fn bmp_header_is_checked() {
    let mut cache = vec![1u8; 12];
    assert_eq!(decode_bmp(&[0u8; 10], 2, 2, true, &mut cache), Err("BMP data too short"));
    let mut bad = bmp(640, 360, 24);
    bad[0] = b'X';
    assert_eq!(decode_bmp(&bad, 2, 2, true, &mut cache), Err("Not a BMP file"));
    assert_eq!(decode_bmp(&bmp(320, 360, 24), 2, 2, true, &mut cache), Err("Unsupported resolution. Must be 640x360"));
    assert_eq!(decode_bmp(&bmp(640, 360, 32), 2, 2, true, &mut cache), Err("Unsupported bits per pixel. Must be 24-bit BGR"));
    assert_eq!(cache, vec![1u8; 12]);
}

#[test]
fn bmp_is_scaled_and_flipped_to_the_screen() {
    let image = bmp(640, 360, 24);
    let mut cache = vec![0u8; 4 * 2 * 3 + 5];
    assert_eq!(decode_bmp(&image, 4, 2, true, &mut cache), Ok(()));
    // screen row 0 takes stored row 359, row 1 stored row 179; column dx takes image column dx * 160
    assert_eq!(&cache[0..3], &[0, (359 % 256) as u8, 7]);
    assert_eq!(&cache[3..6], &[160, (359 % 256) as u8, 7]);
    assert_eq!(&cache[9..12], &[(480 % 256) as u8, (359 % 256) as u8, 7]);
    assert_eq!(&cache[12..15], &[0, 179, 7]);
    assert_eq!(&cache[24..], &[0u8; 5]);
    let mut rgb = vec![0u8; 3];
    decode_bmp(&image, 1, 1, false, &mut rgb).unwrap();
    assert_eq!(rgb, vec![7, (359 % 256) as u8, 0]);
}

use rustanium::graphics::{copy_rect_back_to_fb, draw_cursor_to_buf};

#[test]
fn cursor_is_drawn_onto_screen_memory() {
    let mut fb = vec![9u8; 10 * 14 * 3];
    draw_cursor_to_buf(&mut fb, 1, 1, 10, 14);
    let at = |fb: &Vec<u8>, x: usize, y: usize| {
        let i = (y * 10 + x) * 3;
        [fb[i], fb[i + 1], fb[i + 2]]
    };
    assert_eq!(at(&fb, 1, 1), [0, 0, 0]);
    assert_eq!(at(&fb, 2, 2), [255, 255, 255]);
    assert_eq!(at(&fb, 0, 0), [9, 9, 9]);
    assert_eq!(at(&fb, 3, 1), [9, 9, 9]);
    // clipped at the right edge without touching other rows
    let mut small = vec![9u8; 2 * 2 * 3];
    draw_cursor_to_buf(&mut small, 1, 0, 2, 2);
    assert_eq!(small, vec![9, 9, 9, 0, 0, 0, 9, 9, 9, 0, 0, 0]);
}

#[test]
fn back_buffer_rectangles_are_copied_with_clipping() {
    let back: Vec<u8> = (0..4 * 3 * 3).map(|i| i as u8).collect();
    let mut fb = vec![200u8; 4 * 3 * 3];
    copy_rect_back_to_fb(&mut fb, &back, -1, 1, 3, 5, 4, 3);
    // columns 0 and 1 of rows 1 and 2
    for y in 0..3usize {
        for x in 0..4usize {
            let i = (y * 4 + x) * 3;
            let expect = if y >= 1 && x < 2 { [back[i], back[i + 1], back[i + 2]] } else { [200, 200, 200] };
            assert_eq!([fb[i], fb[i + 1], fb[i + 2]], expect);
        }
    }
    let before = fb.clone();
    copy_rect_back_to_fb(&mut fb, &back, 2, 0, 0, 3, 4, 3);
    assert_eq!(fb, before);
}
