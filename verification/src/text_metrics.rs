//! Measuring proportional text from a table of glyph advances, and the
//! coverage of a pixel when an 8x16 bitmap glyph is drawn scaled.
use vstd::prelude::*;
use crate::graphics::{BackBuffer, blend, channel};

verus! {

/// `c` has a glyph: it is printable ASCII (space to `~`).
pub open spec fn has_glyph(c: char) -> bool {
    32 <= c as int && (c as int) < 127
}

/// The advance of `c` in the table `adv` (one entry per printable ASCII
/// character, from space), or 0 for a character without a glyph.
pub open spec fn advance_of(adv: Seq<u8>, c: char) -> int {
    if has_glyph(c) {
        adv[c as int - 32] as int
    } else {
        0
    }
}

/// Sum of the advances of the characters of `text`.
pub open spec fn text_width(text: Seq<char>, adv: Seq<u8>) -> int
    decreases text.len(),
{
    if text.len() == 0 {
        0
    } else {
        text_width(text.drop_last(), adv) + advance_of(adv, text.last())
    }
}

/// Number of characters of `text` that have a glyph.
pub open spec fn glyph_count(text: Seq<char>) -> int
    decreases text.len(),
{
    if text.len() == 0 {
        0
    } else {
        glyph_count(text.drop_last()) + if has_glyph(text.last()) {
            1int
        } else {
            0int
        }
    }
}

proof fn lemma_width_bounds(text: Seq<char>, adv: Seq<u8>)
    ensures
        0 <= text_width(text, adv) <= 255 * glyph_count(text),
        0 <= glyph_count(text) <= text.len(),
    decreases text.len(),
{
    if text.len() > 0 {
        lemma_width_bounds(text.drop_last(), adv);
    }
}

/// The width of `text` in pixels: the sum of the advances of its
/// characters that have a glyph.
pub fn measure_text(text: &str, adv: &Vec<u8>) -> (w: i32)
    requires
        adv@.len() == 95,
        255 * text@.len() <= i32::MAX,
    ensures
        w == text_width(text@, adv@),
{
    let n = text.unicode_len();
    let mut w: i64 = 0;
    let mut i: usize = 0;
    while i < n
        invariant
            n == text@.len(),
            adv@.len() == 95,
            255 * n <= i32::MAX,
            i <= n,
            w == text_width(text@.subrange(0, i as int), adv@),
            0 <= w <= 255 * i,
        decreases n - i,
    {
        let c = text.get_char(i);
        proof {
            assert(text@.subrange(0, i + 1).drop_last() =~= text@.subrange(0, i as int));
            assert(text@.subrange(0, i + 1).last() == c);
        }
        let code = c as u32;
        if code >= 32 && code < 127 {
            w = w + adv[(code - 32) as usize] as i64;
        }
        i = i + 1;
    }
    assert(text@.subrange(0, n as int) =~= text@);
    w as i32
}

/// The width of `text` with `spacing` pixels between consecutive glyphs:
/// the advances plus one spacing per glyph after the first; 0 when no
/// character has a glyph.
pub open spec fn spaced_width(text: Seq<char>, adv: Seq<u8>, spacing: int) -> int {
    if glyph_count(text) > 0 {
        text_width(text, adv) + glyph_count(text) * spacing - spacing
    } else {
        0
    }
}

/// `|v|`.
pub open spec fn abs(v: int) -> int {
    if v < 0 {
        -v
    } else {
        v
    }
}

/// The width of `text` with `spacing` pixels between glyphs; see
/// `spaced_width`.
pub fn measure_text_spaced(text: &str, adv: &Vec<u8>, spacing: i32) -> (w: i32)
    requires
        adv@.len() == 95,
        (text@.len() + 1) * (255 + abs(spacing as int)) <= i32::MAX,
    ensures
        w == spaced_width(text@, adv@, spacing as int),
{
    let n = text.unicode_len();
    let mut w: i64 = 0;
    let mut count: i64 = 0;
    let mut i: usize = 0;
    let ghost bound = (n + 1) * (255 + abs(spacing as int));
    proof {
        assert(n <= bound) by (nonlinear_arith)
            requires
                bound == (n + 1) * (255 + abs(spacing as int)),
                abs(spacing as int) >= 0,
        ;
    }
    while i < n
        invariant
            n == text@.len(),
            adv@.len() == 95,
            bound == (n + 1) * (255 + abs(spacing as int)),
            bound <= i32::MAX,
            n <= bound,
            i <= n,
            count == glyph_count(text@.subrange(0, i as int)),
            w == text_width(text@.subrange(0, i as int), adv@) + count * spacing,
            0 <= count <= i,
            -(i * abs(spacing as int)) <= w <= i * (255 + abs(spacing as int)),
        decreases n - i,
    {
        let c = text.get_char(i);
        proof {
            assert(text@.subrange(0, i + 1).drop_last() =~= text@.subrange(0, i as int));
            assert(text@.subrange(0, i + 1).last() == c);
            assert((i + 1) * (255 + abs(spacing as int)) <= bound) by (nonlinear_arith)
                requires
                    i < n,
                    bound == (n + 1) * (255 + abs(spacing as int)),
            ;
            assert(i * abs(spacing as int) + abs(spacing as int) == (i + 1) * abs(spacing as int))
                by (nonlinear_arith);
            assert(i * (255 + abs(spacing as int)) + (255 + abs(spacing as int)) == (i + 1) * (255
                + abs(spacing as int))) by (nonlinear_arith);
            assert((i + 1) * abs(spacing as int) <= (i + 1) * (255 + abs(spacing as int)))
                by (nonlinear_arith);
        }
        let code = c as u32;
        if code >= 32 && code < 127 {
            proof {
                assert((count + 1) * spacing == count * spacing + spacing) by (nonlinear_arith);
            }
            w = w + adv[(code - 32) as usize] as i64 + spacing as i64;
            count = count + 1;
        }
        i = i + 1;
    }
    assert(text@.subrange(0, n as int) =~= text@);
    if count > 0 {
        proof {
            assert(n * (255 + abs(spacing as int)) + abs(spacing as int) <= bound) by (nonlinear_arith)
                requires
                    bound == (n + 1) * (255 + abs(spacing as int)),
            ;
            assert(n * abs(spacing as int) <= n * (255 + abs(spacing as int))) by (nonlinear_arith);
        }
        (w - spacing as i64) as i32
    } else {
        0
    }
}

/// The width of two texts one after the other is the sum of their widths;
/// the empty text has width 0.
pub proof fn law_width_concat(a: Seq<char>, b: Seq<char>, adv: Seq<u8>)
    ensures
        text_width(a + b, adv) == text_width(a, adv) + text_width(b, adv),
        text_width(Seq::<char>::empty(), adv) == 0,
    decreases b.len(),
{
    if b.len() == 0 {
        assert(a + b =~= a);
    } else {
        law_width_concat(a, b.drop_last(), adv);
        assert((a + b).drop_last() =~= a + b.drop_last());
        assert((a + b).last() == b.last());
    }
}

/// The spaced width is 0 without glyphs, and otherwise the plain width plus
/// one spacing between each two consecutive glyphs.
pub proof fn law_spaced_width(text: Seq<char>, adv: Seq<u8>, spacing: int)
    ensures
        spaced_width(text, adv, spacing) == if glyph_count(text) == 0 {
            0
        } else {
            text_width(text, adv) + spacing * (glyph_count(text) - 1)
        },
{
    lemma_width_bounds(text, adv);
    let n = glyph_count(text);
    assert(n * spacing - spacing == spacing * (n - 1)) by (nonlinear_arith);
}

/// Whether row `sy`, column `sx` of the 8-column bitmap `glyph` is set
/// (column 0 is the leftmost, the row's high bit).
pub open spec fn glyph_bit(glyph: Seq<u8>, sx: int, sy: int) -> bool {
    0 <= sx < 8 && 0 <= sy < 16 && (glyph[sy] as int / pow2_of(7 - sx)) % 2 == 1
}

/// `2` to the power `k` for `0 <= k < 8`.
pub open spec fn pow2_of(k: int) -> int {
    if k <= 0 {
        1
    } else if k == 1 {
        2
    } else if k == 2 {
        4
    } else if k == 3 {
        8
    } else if k == 4 {
        16
    } else if k == 5 {
        32
    } else if k == 6 {
        64
    } else {
        128
    }
}

/// Source column or row sampled by subpixel `q` (1 or 3 of 4) of
/// destination pixel `d`, with `scale` the source step in 1/256 pixels.
pub open spec fn sample(d: int, q: int, scale: int) -> int {
    (((d * 4 + q) * scale) / 4) / 256
}

/// How many of the four subpixels of destination pixel `(dx, dy)` fall on
/// set bits when the 8x16 `glyph` is drawn in a `size_w` by `size_h` cell.
pub open spec fn covered(glyph: Seq<u8>, size_w: int, size_h: int, dx: int, dy: int) -> int {
    let sx = 2048int / size_w;
    let sy = 4096int / size_h;
    let l = sample(dx, 1, sx);
    let r = sample(dx, 3, sx);
    let t = sample(dy, 1, sy);
    let b = sample(dy, 3, sy);
    (if glyph_bit(glyph, l, t) { 1int } else { 0int }) + (if glyph_bit(glyph, r, t) { 1int } else { 0int })
        + (if glyph_bit(glyph, l, b) { 1int } else { 0int }) + (if glyph_bit(glyph, r, b) { 1int } else { 0int })
}

/// The opacity of a pixel with `n` of its four subpixels covered.
pub open spec fn coverage_alpha(n: int) -> u8 {
    if n <= 0 {
        0
    } else if n == 1 {
        64
    } else if n == 2 {
        128
    } else if n == 3 {
        192
    } else {
        255
    }
}

/// Whether bit `sx` (from the left) of `row` is set.
fn row_bit(row: u8, sx: i64) -> (b: bool)
    requires
        0 <= sx < 8,
    ensures
        b == ((row as int / pow2_of(7 - sx)) % 2 == 1),
{
    let k = (7 - sx) as u8;
    proof {
        assert(k < 8);
        assert(((row >> k) & 1 == 1) == ((row as int / pow2_of(k as int)) % 2 == 1)) by {
            if k == 0 {
                assert(((row >> 0u8) & 1 == 1) == (row % 2 == 1)) by (bit_vector);
            } else if k == 1 {
                assert(((row >> 1u8) & 1 == 1) == ((row / 2) % 2 == 1)) by (bit_vector);
            } else if k == 2 {
                assert(((row >> 2u8) & 1 == 1) == ((row / 4) % 2 == 1)) by (bit_vector);
            } else if k == 3 {
                assert(((row >> 3u8) & 1 == 1) == ((row / 8) % 2 == 1)) by (bit_vector);
            } else if k == 4 {
                assert(((row >> 4u8) & 1 == 1) == ((row / 16) % 2 == 1)) by (bit_vector);
            } else if k == 5 {
                assert(((row >> 5u8) & 1 == 1) == ((row / 32) % 2 == 1)) by (bit_vector);
            } else if k == 6 {
                assert(((row >> 6u8) & 1 == 1) == ((row / 64) % 2 == 1)) by (bit_vector);
            } else {
                assert(((row >> 7u8) & 1 == 1) == ((row / 128) % 2 == 1)) by (bit_vector);
            }
        }
    }
    (row >> k) & 1 == 1
}

/// Whether the glyph bit at `(sx, sy)` is set, out-of-range positions
/// counting as unset.
fn glyph_bit_exec(glyph: &Vec<u8>, sx: i64, sy: i64) -> (b: bool)
    requires
        glyph@.len() == 16,
    ensures
        b == glyph_bit(glyph@, sx as int, sy as int),
{
    if sx >= 0 && sx < 8 && sy >= 0 && sy < 16 {
        row_bit(glyph[sy as usize], sx)
    } else {
        false
    }
}

/// The opacity of pixel `(dx, dy)` when the 8x16 bitmap `glyph` is drawn
/// smoothly in a `size_w` by `size_h` cell: each pixel samples four points
/// of the glyph, and the more of them fall on set bits, the more opaque it
/// is (0 means the pixel is not drawn).
pub fn smooth_alpha(glyph: &Vec<u8>, size_w: i32, size_h: i32, dx: i32, dy: i32) -> (a: u8)
    requires
        glyph@.len() == 16,
        size_w > 0,
        size_h > 0,
        0 <= dx < size_w,
        0 <= dy < size_h,
    ensures
        a == coverage_alpha(covered(glyph@, size_w as int, size_h as int, dx as int, dy as int)),
{
    let scale_x: i64 = (8 * 256) / size_w as i64;
    let scale_y: i64 = (16 * 256) / size_h as i64;
    let dx64 = dx as i64;
    let dy64 = dy as i64;
    proof {
        assert(0 <= scale_x <= 2048);
        assert(0 <= scale_y <= 4096);
        assert(0 <= (dx64 * 4 + 1) * scale_x <= (dx64 * 4 + 3) * scale_x <= (4 * 2147483647 + 3) * 2048)
            by (nonlinear_arith)
            requires
                0 <= dx64 < 2147483647,
                0 <= scale_x <= 2048,
        ;
        assert(0 <= (dy64 * 4 + 1) * scale_y <= (dy64 * 4 + 3) * scale_y <= (4 * 2147483647 + 3) * 4096)
            by (nonlinear_arith)
            requires
                0 <= dy64 < 2147483647,
                0 <= scale_y <= 4096,
        ;
    }
    let t = (((dy64 * 4 + 1) * scale_y) / 4) / 256;
    let b = (((dy64 * 4 + 3) * scale_y) / 4) / 256;
    let l = (((dx64 * 4 + 1) * scale_x) / 4) / 256;
    let r = (((dx64 * 4 + 3) * scale_x) / 4) / 256;
    let mut n: u8 = 0;
    if glyph_bit_exec(glyph, l, t) {
        n = n + 1;
    }
    if glyph_bit_exec(glyph, r, t) {
        n = n + 1;
    }
    if glyph_bit_exec(glyph, l, b) {
        n = n + 1;
    }
    if glyph_bit_exec(glyph, r, b) {
        n = n + 1;
    }
    if n == 0 {
        0
    } else if n == 1 {
        64
    } else if n == 2 {
        128
    } else if n == 3 {
        192
    } else {
        255
    }
}


/// The bytes after the 8x16 `glyph` is drawn smoothly in the `cw` by `ch`
/// cell at `(x, y)` of a `w` by `h` screen, for the cell's pixels `(a, c)`
/// with `done(a - x, c - y)`: each such pixel on the screen is blended
/// toward `(r, g, b)` with the opacity its coverage gives (0 leaves it as it
/// was).
pub open spec fn smooth_part(
    d0: Seq<u8>,
    w: int,
    h: int,
    format: u32,
    x: int,
    y: int,
    glyph: Seq<u8>,
    cw: int,
    ch: int,
    r: u8,
    g: u8,
    b: u8,
    done: spec_fn(int, int) -> bool,
) -> Seq<u8> {
    Seq::new(
        d0.len(),
        |i: int|
            {
                let a = (i / 3) % w;
                let c = (i / 3) / w;
                if i < w * h * 3 && x <= a < x + cw && y <= c < y + ch && done(a - x, c - y) {
                    blend(d0[i], channel(format, i % 3, r, g, b), coverage_alpha(covered(glyph, cw, ch, a - x, c - y)))
                } else {
                    d0[i]
                }
            },
    )
}

impl BackBuffer {
    /// Draws the 8x16 bitmap `glyph` smoothly scaled into the `size_w` by
    /// `size_h` cell at `(x, y)`: every pixel of the cell on the screen is
    /// blended toward `(r, g, b)` with the opacity of its coverage
    /// (`smooth_alpha`); nothing outside the cell changes, and a cell of
    /// negative size draws nothing.
    pub fn draw_char_smooth(
        &mut self,
        x: i32,
        y: i32,
        glyph: &Vec<u8>,
        r: u8,
        g: u8,
        b: u8,
        size_w: i32,
        size_h: i32,
    )
        requires
            old(self).wf(),
            glyph@.len() == 16,
            size_w != 0,
            size_h != 0,
            x + size_w <= i32::MAX,
            y + size_h <= i32::MAX,
        ensures
            final(self).wf(),
            final(self).same_screen(*old(self)),
            final(self).data@ == smooth_part(
                old(self).data@,
                old(self).width as int,
                old(self).height as int,
                old(self).format,
                x as int,
                y as int,
                glyph@,
                size_w as int,
                size_h as int,
                r,
                g,
                b,
                |a: int, c: int| true,
            ),
    {
        let ghost w = self.width as int;
        let ghost h = self.height as int;
        let ghost fmt = self.format;
        let ghost d0 = self.data@;
        if size_w < 0 || size_h < 0 {
            proof {
                assert(d0 =~= smooth_part(d0, w, h, fmt, x as int, y as int, glyph@, size_w as int, size_h as int, r, g, b, |a: int, c: int| true));
            }
            return;
        }
        let mut dy: i32 = 0;
        proof {
            assert(d0 =~= smooth_part(d0, w, h, fmt, x as int, y as int, glyph@, size_w as int, size_h as int, r, g, b, |a: int, c: int| c < 0));
        }
        while dy < size_h
            invariant
                self.wf(),
                self.same_screen(*old(self)),
                w == self.width && h == self.height && fmt == self.format,
                d0 == old(self).data@,
                glyph@.len() == 16,
                size_w > 0 && size_h > 0,
                x + size_w <= i32::MAX,
                y + size_h <= i32::MAX,
                0 <= dy <= size_h,
                self.data@ == smooth_part(d0, w, h, fmt, x as int, y as int, glyph@, size_w as int, size_h as int, r, g, b, |a: int, c: int| c < dy),
            decreases size_h - dy,
        {
            let mut dx: i32 = 0;
            proof {
                assert(smooth_part(d0, w, h, fmt, x as int, y as int, glyph@, size_w as int, size_h as int, r, g, b, |a: int, c: int| c < dy)
                    =~= smooth_part(d0, w, h, fmt, x as int, y as int, glyph@, size_w as int, size_h as int, r, g, b, |a: int, c: int| c < dy || (c == dy && a < 0)));
            }
            while dx < size_w
                invariant
                    self.wf(),
                    self.same_screen(*old(self)),
                    w == self.width && h == self.height && fmt == self.format,
                    d0 == old(self).data@,
                    glyph@.len() == 16,
                    size_w > 0 && size_h > 0,
                    x + size_w <= i32::MAX,
                    y + size_h <= i32::MAX,
                    0 <= dy < size_h,
                    0 <= dx <= size_w,
                    self.data@ == smooth_part(d0, w, h, fmt, x as int, y as int, glyph@, size_w as int, size_h as int, r, g, b, |a: int, c: int| c < dy || (c == dy && a < dx)),
                decreases size_w - dx,
            {
                let alpha = smooth_alpha(glyph, size_w, size_h, dx, dy);
                let ghost before = self.data@;
                self.draw_pixel_alpha(x + dx, y + dy, r, g, b, alpha);
                proof {
                    let prev = |a: int, c: int| c < dy || (c == dy && a < dx);
                    let next = |a: int, c: int| c < dy || (c == dy && a < dx + 1);
                    let cur = |a: int, c: int| a == x + dx && c == y + dy;
                    let after = smooth_part(d0, w, h, fmt, x as int, y as int, glyph@, size_w as int, size_h as int, r, g, b, next);
                    assert forall|i: int| 0 <= i < d0.len() implies #[trigger] self.data@[i] == after[i] by {
                        let a = (i / 3) % w;
                        let c = (i / 3) / w;
                        if i < w * h * 3 && a == x + dx && c == y + dy {
                            assert(before[i] == d0[i]);
                        }
                    }
                    assert(self.data@ =~= after);
                }
                dx = dx + 1;
            }
            proof {
                assert(smooth_part(d0, w, h, fmt, x as int, y as int, glyph@, size_w as int, size_h as int, r, g, b, |a: int, c: int| c < dy || (c == dy && a < size_w))
                    =~= smooth_part(d0, w, h, fmt, x as int, y as int, glyph@, size_w as int, size_h as int, r, g, b, |a: int, c: int| c < dy + 1));
            }
            dy = dy + 1;
        }
        proof {
            assert(smooth_part(d0, w, h, fmt, x as int, y as int, glyph@, size_w as int, size_h as int, r, g, b, |a: int, c: int| c < size_h)
                =~= smooth_part(d0, w, h, fmt, x as int, y as int, glyph@, size_w as int, size_h as int, r, g, b, |a: int, c: int| true));
        }
    }
}


/// Number of characters of `t` other than line feeds.
pub open spec fn drawn_count(t: Seq<char>) -> int
    decreases t.len(),
{
    if t.len() == 0 {
        0
    } else {
        drawn_count(t.drop_last()) + if t.last() == '\n' {
            0int
        } else {
            1int
        }
    }
}

/// The bytes after `text` is drawn smoothly from `font` (one 8x16 glyph per
/// ASCII code): line feeds are skipped, and every other character takes a
/// `cw` by `ch` cell, the cells `cw + 1` apart from `(x, y)` rightwards;
/// characters beyond ASCII take their cell but draw nothing.
pub open spec fn smooth_text(
    d0: Seq<u8>,
    w: int,
    h: int,
    format: u32,
    x: int,
    y: int,
    text: Seq<char>,
    font: Seq<Seq<u8>>,
    cw: int,
    ch: int,
    r: u8,
    g: u8,
    b: u8,
) -> Seq<u8>
    decreases text.len(),
{
    if text.len() == 0 {
        d0
    } else {
        let prev = smooth_text(d0, w, h, format, x, y, text.drop_last(), font, cw, ch, r, g, b);
        let c = text.last();
        if c == '\n' || c as int >= 128 {
            prev
        } else {
            smooth_part(
                prev,
                w,
                h,
                format,
                x + drawn_count(text.drop_last()) * (cw + 1),
                y,
                font[c as int],
                cw,
                ch,
                r,
                g,
                b,
                |a: int, c: int| true,
            )
        }
    }
}

proof fn lemma_drawn_count_le(t: Seq<char>)
    ensures
        0 <= drawn_count(t) <= t.len(),
    decreases t.len(),
{
    if t.len() > 0 {
        lemma_drawn_count_le(t.drop_last());
    }
}

impl BackBuffer {
    /// Draws `text` smoothly from `font`; see `smooth_text`.
    pub fn draw_string_smooth(
        &mut self,
        x: i32,
        y: i32,
        text: &str,
        font: &Vec<Vec<u8>>,
        r: u8,
        g: u8,
        b: u8,
        char_w: i32,
        char_h: i32,
    )
        requires
            old(self).wf(),
            font@.len() == 128,
            forall|k: int| 0 <= k < 128 ==> (#[trigger] font@[k])@.len() == 16,
            char_w > 0,
            char_h != 0,
            x + (text@.len() + 1) * (char_w + 1) <= i32::MAX,
            y + char_h <= i32::MAX,
        ensures
            final(self).wf(),
            final(self).same_screen(*old(self)),
            final(self).data@ == smooth_text(
                old(self).data@,
                old(self).width as int,
                old(self).height as int,
                old(self).format,
                x as int,
                y as int,
                text@,
                font@.map_values(|v: Vec<u8>| v@),
                char_w as int,
                char_h as int,
                r,
                g,
                b,
            ),
    {
        let ghost w = self.width as int;
        let ghost h = self.height as int;
        let ghost fmt = self.format;
        let ghost d0 = self.data@;
        let ghost fv = font@.map_values(|v: Vec<u8>| v@);
        let n = text.unicode_len();
        let mut cur_x = x;
        let mut i: usize = 0;
        while i < n
            invariant
                self.wf(),
                self.same_screen(*old(self)),
                w == self.width && h == self.height && fmt == self.format,
                d0 == old(self).data@,
                n == text@.len(),
                fv == font@.map_values(|v: Vec<u8>| v@),
                font@.len() == 128,
                forall|k: int| 0 <= k < 128 ==> (#[trigger] font@[k])@.len() == 16,
                char_w > 0,
                char_h != 0,
                x + (n + 1) * (char_w + 1) <= i32::MAX,
                y + char_h <= i32::MAX,
                i <= n,
                cur_x == x + drawn_count(text@.subrange(0, i as int)) * (char_w + 1),
                self.data@ == smooth_text(d0, w, h, fmt, x as int, y as int, text@.subrange(0, i as int), fv, char_w as int, char_h as int, r, g, b),
            decreases n - i,
        {
            let c = text.get_char(i);
            let ghost t0 = text@.subrange(0, i as int);
            proof {
                assert(text@.subrange(0, i + 1).drop_last() =~= t0);
                assert(text@.subrange(0, i + 1).last() == c);
                lemma_drawn_count_le(t0);
                assert(drawn_count(t0) * (char_w + 1) <= i * (char_w + 1)) by (nonlinear_arith)
                    requires
                        drawn_count(t0) <= i,
                        char_w + 1 > 0,
                ;
                assert(i * (char_w + 1) + (char_w + 1) <= (n + 1) * (char_w + 1)) by (nonlinear_arith)
                    requires
                        i < n,
                        char_w + 1 > 0,
                ;
                assert(0 <= drawn_count(t0) * (char_w + 1)) by (nonlinear_arith)
                    requires
                        drawn_count(t0) >= 0,
                        char_w + 1 > 0,
                ;
            }
            if c != '\n' {
                let code = c as u32;
                if code < 128 {
                    proof {
                        assert(fv[code as int] == font@[code as int]@);
                    }
                    self.draw_char_smooth(cur_x, y, &font[code as usize], r, g, b, char_w, char_h);
                }
                proof {
                    assert((drawn_count(t0) + 1) * (char_w + 1) == drawn_count(t0) * (char_w + 1) + char_w + 1)
                        by (nonlinear_arith);
                }
                cur_x = cur_x + char_w + 1;
            }
            i = i + 1;
        }
        assert(text@.subrange(0, n as int) =~= text@);
    }
}

} // verus!
