//! Clipped drawing on the kernel's display for the window manager: every
//! coordinate is signed, and pixels off the screen are skipped.
use vstd::prelude::*;
use vstd::string::*;
use crate::window::{Color, glyph, font_glyph, glyph_bit};
use crate::framebuffer::{UefiGraphics, PixelWrite, write_all, write_spec, lemma_write_all_append, color_bg};

verus! {

/// Colour of the desktop grid lines.
pub open spec fn color_grid() -> Color {
    Color { r: 22, g: 26, b: 32 }
}

/// Whether `(px, py)` lies on a `w` by `h` screen, its size read as `i32`
/// values.
pub open spec fn on_screen(px: int, py: int, w: usize, h: usize) -> bool {
    0 <= py < (h as i32) && 0 <= px < (w as i32)
}

/// The write of `c` at `(px, py)` when the pixel is on the screen.
pub open spec fn clip_write(px: int, py: int, w: usize, h: usize, c: Color) -> Seq<PixelWrite> {
    if on_screen(px, py, w, h) {
        seq![(px, py, c)]
    } else {
        Seq::empty()
    }
}

/// The clipped writes of the first `n` pixels of row `py` from column
/// `x`.
pub open spec fn clip_row(x: int, py: int, n: nat, w: usize, h: usize, c: Color) -> Seq<PixelWrite>
    decreases n,
{
    if n == 0 {
        Seq::empty()
    } else {
        clip_row(x, py, (n - 1) as nat, w, h, c) + clip_write(x + n - 1, py, w, h, c)
    }
}

/// The clipped writes of the first `n` rows of a rectangle `width` wide
/// at `(x, y)`.
pub open spec fn clip_rect(x: int, y: int, width: nat, n: nat, w: usize, h: usize, c: Color) -> Seq<PixelWrite>
    decreases n,
{
    if n == 0 {
        Seq::empty()
    } else {
        clip_rect(x, y, width, (n - 1) as nat, w, h, c) + clip_row(x, y + n - 1, width, w, h, c)
    }
}

/// Whether some row of a band `height` tall at row `y` is on a screen `h`
/// tall.
pub open spec fn rows_visible(y: int, height: int, h: usize) -> bool {
    height > 0 && y + height > 0 && (if y > 0 {
        y
    } else {
        0
    }) < (h as i32)
}

/// Colour of the desktop at `(px, py)`: grid lines every 40 pixels on the
/// background colour.
pub open spec fn grid_color_at(px: int, py: int) -> Color {
    if px % 40 == 0 || py % 40 == 0 {
        color_grid()
    } else {
        color_bg()
    }
}

/// The write that clears `(px, py)` to the desktop, below the header band
/// and on the screen.
pub open spec fn grid_write(px: int, py: int, w: usize, h: usize) -> Seq<PixelWrite> {
    if on_screen(px, py, w, h) && py >= 48 {
        seq![(px, py, grid_color_at(px, py))]
    } else {
        Seq::empty()
    }
}

/// The desktop writes of the first `n` pixels of row `py` from column `x`.
pub open spec fn grid_row(x: int, py: int, n: nat, w: usize, h: usize) -> Seq<PixelWrite>
    decreases n,
{
    if n == 0 {
        Seq::empty()
    } else {
        grid_row(x, py, (n - 1) as nat, w, h) + grid_write(x + n - 1, py, w, h)
    }
}

/// The desktop writes of the first `n` rows of a rectangle `width` wide at
/// `(x, y)`.
pub open spec fn grid_rect(x: int, y: int, width: nat, n: nat, w: usize, h: usize) -> Seq<PixelWrite>
    decreases n,
{
    if n == 0 {
        Seq::empty()
    } else {
        grid_rect(x, y, width, (n - 1) as nat, w, h) + grid_row(x, y + n - 1, width, w, h)
    }
}

/// A count given as an `i32`, none when negative.
pub open spec fn count(n: i32) -> nat {
    if n > 0 {
        n as nat
    } else {
        0
    }
}

/// A single write is the write of its pixel.
proof fn lemma_write_one(cv: crate::framebuffer::Canvas, w: int, h: int, p: PixelWrite)
    ensures
        write_all(cv, w, h, seq![p]) == write_spec(cv, w, h, p.0, p.1, p.2),
{
    assert(seq![p].drop_last() =~= Seq::<PixelWrite>::empty());
    assert(write_all(cv, w, h, Seq::<PixelWrite>::empty()) == cv);
    assert(seq![p].last() == p);
}

/// Draws a rectangle `width` by `height` at `(x, y)`, skipping the pixels
/// off the screen; see `clip_rect`.
pub fn draw_rect_safe(graphics: &mut UefiGraphics, x: i32, y: i32, width: i32, height: i32, color: Color)
    requires
        old(graphics).wf(),
        height > 0 ==> y + height - 1 <= i32::MAX,
        width > 0 && rows_visible(y as int, height as int, old(graphics).height) ==> x + width - 1 <= i32::MAX,
    ensures
        final(graphics).wf(),
        final(graphics).canvas() == write_all(
            old(graphics).canvas(),
            old(graphics).width as int,
            old(graphics).height as int,
            clip_rect(
                x as int,
                y as int,
                count(width),
                count(height),
                old(graphics).width,
                old(graphics).height,
                color,
            ),
        ),
        final(graphics).same_device(*old(graphics)),
        final(graphics).same_mouse(*old(graphics)),
{
    let ghost cv0 = graphics.canvas();
    let ghost w = graphics.width as int;
    let ghost h = graphics.height as int;
    let ghost sw = graphics.width;
    let ghost sh = graphics.height;
    let mut row: i32 = 0;
    while row < height
        invariant
            graphics.wf(),
            graphics.same_device(*old(graphics)),
            graphics.same_mouse(*old(graphics)),
            graphics.width == sw && graphics.height == sh,
            w == sw && h == sh,
            0 <= row,
            height > 0 ==> row <= height,
            height <= 0 ==> row == 0,
            height > 0 ==> y + height - 1 <= i32::MAX,
            width > 0 && rows_visible(y as int, height as int, sh) ==> x + width - 1 <= i32::MAX,
            graphics.canvas() == write_all(cv0, w, h, clip_rect(x as int, y as int, count(width), row as nat, sw, sh, color)),
        decreases height - row,
    {
        let py = y + row;
        let ghost before = clip_rect(x as int, y as int, count(width), row as nat, sw, sh, color);
        if py < 0 || py >= graphics.height as i32 {
            proof {
                assert forall|k: nat| k <= count(width) implies #[trigger] clip_row(x as int, py as int, k, sw, sh, color)
                    =~= Seq::<PixelWrite>::empty() by {
                    lemma_clip_row_off(x as int, py as int, k, sw, sh, color);
                }
                assert(clip_rect(x as int, y as int, count(width), (row + 1) as nat, sw, sh, color) =~= before);
            }
        } else {
            let mut col: i32 = 0;
            proof {
                assert(rows_visible(y as int, height as int, sh));
                assert(before + clip_row(x as int, py as int, 0, sw, sh, color) =~= before);
            }
            while col < width
                invariant
                    graphics.wf(),
                    graphics.same_device(*old(graphics)),
                    graphics.same_mouse(*old(graphics)),
                    graphics.width == sw && graphics.height == sh,
                    w == sw && h == sh,
                    0 <= col,
                    width > 0 ==> col <= width,
                    width <= 0 ==> col == 0,
                    width > 0 ==> x + width - 1 <= i32::MAX,
                    0 <= py < (sh as i32),
                    graphics.canvas() == write_all(cv0, w, h, before + clip_row(x as int, py as int, col as nat, sw, sh, color)),
                decreases width - col,
            {
                let px = x + col;
                let ghost cur = before + clip_row(x as int, py as int, col as nat, sw, sh, color);
                if px < 0 || px >= graphics.width as i32 {
                    proof {
                        assert(cur + Seq::<PixelWrite>::empty() =~= cur);
                        assert(before + clip_row(x as int, py as int, (col + 1) as nat, sw, sh, color) =~= cur);
                    }
                } else {
                    graphics.write_pixel(px as usize, py as usize, color);
                    proof {
                        lemma_write_one(write_all(cv0, w, h, cur), w, h, (px as int, py as int, color));
                        lemma_write_all_append(cv0, w, h, cur, seq![(px as int, py as int, color)]);
                        assert(before + clip_row(x as int, py as int, (col + 1) as nat, sw, sh, color) =~= cur + seq![(
                            px as int,
                            py as int,
                            color,
                        )]);
                    }
                }
                col = col + 1;
            }
            proof {
                assert(count(width) == col as nat);
                assert(clip_rect(x as int, y as int, count(width), (row + 1) as nat, sw, sh, color) =~= before
                    + clip_row(x as int, py as int, col as nat, sw, sh, color));
            }
        }
        row = row + 1;
    }
    proof {
        assert(count(height) == row as nat);
    }
}

/// A row off the screen writes nothing.
proof fn lemma_clip_row_off(x: int, py: int, k: nat, w: usize, h: usize, c: Color)
    requires
        !(0 <= py < (h as i32)),
    ensures
        clip_row(x, py, k, w, h, c) =~= Seq::<PixelWrite>::empty(),
    decreases k,
{
    if k > 0 {
        lemma_clip_row_off(x, py, (k - 1) as nat, w, h, c);
    }
}

/// Clears the rectangle `rw` by `rh` at `(rx, ry)` to the desktop (grid
/// lines on the background), leaving the header band and the pixels off
/// the screen alone; see `grid_rect`.
pub fn clear_rect_with_grid(graphics: &mut UefiGraphics, rx: i32, ry: i32, rw: i32, rh: i32)
    requires
        old(graphics).wf(),
        rh > 0 ==> ry + rh - 1 <= i32::MAX,
        rw > 0 && rows_visible(ry as int, rh as int, old(graphics).height) ==> rx + rw - 1 <= i32::MAX,
    ensures
        final(graphics).wf(),
        final(graphics).canvas() == write_all(
            old(graphics).canvas(),
            old(graphics).width as int,
            old(graphics).height as int,
            grid_rect(rx as int, ry as int, count(rw), count(rh), old(graphics).width, old(graphics).height),
        ),
        final(graphics).same_device(*old(graphics)),
        final(graphics).same_mouse(*old(graphics)),
{
    let ghost cv0 = graphics.canvas();
    let ghost w = graphics.width as int;
    let ghost h = graphics.height as int;
    let ghost sw = graphics.width;
    let ghost sh = graphics.height;
    let mut y: i32 = 0;
    while y < rh
        invariant
            graphics.wf(),
            graphics.same_device(*old(graphics)),
            graphics.same_mouse(*old(graphics)),
            graphics.width == sw && graphics.height == sh,
            w == sw && h == sh,
            0 <= y,
            rh > 0 ==> y <= rh,
            rh <= 0 ==> y == 0,
            rh > 0 ==> ry + rh - 1 <= i32::MAX,
            rw > 0 && rows_visible(ry as int, rh as int, sh) ==> rx + rw - 1 <= i32::MAX,
            graphics.canvas() == write_all(cv0, w, h, grid_rect(rx as int, ry as int, count(rw), y as nat, sw, sh)),
        decreases rh - y,
    {
        let py = ry + y;
        let ghost before = grid_rect(rx as int, ry as int, count(rw), y as nat, sw, sh);
        if py < 0 || py >= graphics.height as i32 {
            proof {
                lemma_grid_row_off(rx as int, py as int, count(rw), sw, sh);
                assert(grid_rect(rx as int, ry as int, count(rw), (y + 1) as nat, sw, sh) =~= before);
            }
        } else {
            let mut x: i32 = 0;
            proof {
                assert(rows_visible(ry as int, rh as int, sh));
                assert(before + grid_row(rx as int, py as int, 0, sw, sh) =~= before);
            }
            while x < rw
                invariant
                    graphics.wf(),
                    graphics.same_device(*old(graphics)),
                    graphics.same_mouse(*old(graphics)),
                    graphics.width == sw && graphics.height == sh,
                    w == sw && h == sh,
                    0 <= x,
                    rw > 0 ==> x <= rw,
                    rw <= 0 ==> x == 0,
                    rw > 0 ==> rx + rw - 1 <= i32::MAX,
                    0 <= py < (sh as i32),
                    graphics.canvas() == write_all(cv0, w, h, before + grid_row(rx as int, py as int, x as nat, sw, sh)),
                decreases rw - x,
            {
                let px = rx + x;
                let ghost cur = before + grid_row(rx as int, py as int, x as nat, sw, sh);
                if px < 0 || px >= graphics.width as i32 || py < 48 {
                    proof {
                        assert(cur + Seq::<PixelWrite>::empty() =~= cur);
                        assert(before + grid_row(rx as int, py as int, (x + 1) as nat, sw, sh) =~= cur);
                    }
                } else {
                    let color = if px % 40 == 0 || py % 40 == 0 {
                        Color { r: 22, g: 26, b: 32 }
                    } else {
                        Color { r: 13, g: 15, b: 18 }
                    };
                    graphics.write_pixel(px as usize, py as usize, color);
                    proof {
                        assert(color == grid_color_at(px as int, py as int));
                        lemma_write_one(write_all(cv0, w, h, cur), w, h, (px as int, py as int, color));
                        lemma_write_all_append(cv0, w, h, cur, seq![(px as int, py as int, color)]);
                        assert(before + grid_row(rx as int, py as int, (x + 1) as nat, sw, sh) =~= cur + seq![(
                            px as int,
                            py as int,
                            color,
                        )]);
                    }
                }
                x = x + 1;
            }
            proof {
                assert(count(rw) == x as nat);
                assert(grid_rect(rx as int, ry as int, count(rw), (y + 1) as nat, sw, sh) =~= before + grid_row(
                    rx as int,
                    py as int,
                    x as nat,
                    sw,
                    sh,
                ));
            }
        }
        y = y + 1;
    }
    proof {
        assert(count(rh) == y as nat);
    }
}

/// A row off the screen clears nothing.
proof fn lemma_grid_row_off(x: int, py: int, k: nat, w: usize, h: usize)
    requires
        !(0 <= py < (h as i32)),
    ensures
        grid_row(x, py, k, w, h) =~= Seq::<PixelWrite>::empty(),
    decreases k,
{
    if k > 0 {
        lemma_grid_row_off(x, py, (k - 1) as nat, w, h);
    }
}

/// The clipped writes of the first `n` pixels of column `px` from row `y`.
pub open spec fn clip_col(px: int, y: int, n: nat, w: usize, h: usize, c: Color) -> Seq<PixelWrite>
    decreases n,
{
    if n == 0 {
        Seq::empty()
    } else {
        clip_col(px, y, (n - 1) as nat, w, h, c) + clip_write(px, y + n - 1, w, h, c)
    }
}

/// The clipped writes of the first `n` columns of a band `height` tall at
/// `(x, y)`, column `k` in `colors[k]`.
pub open spec fn clip_cols(x: int, y: int, height: nat, colors: Seq<Color>, n: nat, w: usize, h: usize) -> Seq<
    PixelWrite,
>
    decreases n,
{
    if n == 0 {
        Seq::empty()
    } else {
        clip_cols(x, y, height, colors, (n - 1) as nat, w, h) + clip_col(x + n - 1, y, height, w, h, colors[n - 1])
    }
}

/// Whether some column of a band `width` wide at column `x` is on a
/// screen `w` wide.
pub open spec fn cols_visible(x: int, width: int, w: usize) -> bool {
    width > 0 && x + width > 0 && (if x > 0 {
        x
    } else {
        0
    }) < (w as i32)
}

/// A column off the screen writes nothing.
proof fn lemma_clip_col_off(px: int, y: int, k: nat, w: usize, h: usize, c: Color)
    requires
        !(0 <= px < (w as i32)),
    ensures
        clip_col(px, y, k, w, h, c) =~= Seq::<PixelWrite>::empty(),
    decreases k,
{
    if k > 0 {
        lemma_clip_col_off(px, y, (k - 1) as nat, w, h, c);
    }
}

/// Paints a horizontal gradient band `height` tall at `(x, y)`, one column
/// per colour of `colors` (worked out by the caller from the band's two
/// end colours), skipping the pixels off the screen; see `clip_cols`.
pub fn draw_gradient_rect_safe(graphics: &mut UefiGraphics, x: i32, y: i32, height: i32, colors: &Vec<Color>)
    requires
        old(graphics).wf(),
        colors@.len() <= i32::MAX,
        colors@.len() > 0 ==> x + colors@.len() - 1 <= i32::MAX,
        height > 0 && cols_visible(x as int, colors@.len() as int, old(graphics).width) ==> y + height - 1 <= i32::MAX,
    ensures
        final(graphics).wf(),
        final(graphics).canvas() == write_all(
            old(graphics).canvas(),
            old(graphics).width as int,
            old(graphics).height as int,
            clip_cols(
                x as int,
                y as int,
                count(height),
                colors@,
                colors@.len(),
                old(graphics).width,
                old(graphics).height,
            ),
        ),
        final(graphics).same_device(*old(graphics)),
        final(graphics).same_mouse(*old(graphics)),
{
    let ghost cv0 = graphics.canvas();
    let ghost w = graphics.width as int;
    let ghost h = graphics.height as int;
    let ghost sw = graphics.width;
    let ghost sh = graphics.height;
    let width = colors.len() as i32;
    let mut col: i32 = 0;
    while col < width
        invariant
            graphics.wf(),
            graphics.same_device(*old(graphics)),
            graphics.same_mouse(*old(graphics)),
            graphics.width == sw && graphics.height == sh,
            w == sw && h == sh,
            width == colors@.len(),
            0 <= col <= width,
            width > 0 ==> x + width - 1 <= i32::MAX,
            height > 0 && cols_visible(x as int, width as int, sw) ==> y + height - 1 <= i32::MAX,
            graphics.canvas() == write_all(cv0, w, h, clip_cols(x as int, y as int, count(height), colors@, col as nat, sw, sh)),
        decreases width - col,
    {
        let px = x + col;
        let ghost before = clip_cols(x as int, y as int, count(height), colors@, col as nat, sw, sh);
        let color = colors[col as usize];
        if px < 0 || px >= graphics.width as i32 {
            proof {
                lemma_clip_col_off(px as int, y as int, count(height), sw, sh, color);
                assert(clip_cols(x as int, y as int, count(height), colors@, (col + 1) as nat, sw, sh) =~= before);
            }
        } else {
            let mut row: i32 = 0;
            proof {
                assert(cols_visible(x as int, width as int, sw));
                assert(before + clip_col(px as int, y as int, 0, sw, sh, color) =~= before);
            }
            while row < height
                invariant
                    graphics.wf(),
                    graphics.same_device(*old(graphics)),
                    graphics.same_mouse(*old(graphics)),
                    graphics.width == sw && graphics.height == sh,
                    w == sw && h == sh,
                    0 <= row,
                    height > 0 ==> row <= height,
                    height <= 0 ==> row == 0,
                    height > 0 ==> y + height - 1 <= i32::MAX,
                    0 <= px < (sw as i32),
                    graphics.canvas() == write_all(cv0, w, h, before + clip_col(px as int, y as int, row as nat, sw, sh, color)),
                decreases height - row,
            {
                let py = y + row;
                let ghost cur = before + clip_col(px as int, y as int, row as nat, sw, sh, color);
                if py < 0 || py >= graphics.height as i32 {
                    proof {
                        assert(cur + Seq::<PixelWrite>::empty() =~= cur);
                        assert(before + clip_col(px as int, y as int, (row + 1) as nat, sw, sh, color) =~= cur);
                    }
                } else {
                    graphics.write_pixel(px as usize, py as usize, color);
                    proof {
                        lemma_write_one(write_all(cv0, w, h, cur), w, h, (px as int, py as int, color));
                        lemma_write_all_append(cv0, w, h, cur, seq![(px as int, py as int, color)]);
                        assert(before + clip_col(px as int, y as int, (row + 1) as nat, sw, sh, color) =~= cur + seq![(
                            px as int,
                            py as int,
                            color,
                        )]);
                    }
                }
                row = row + 1;
            }
            proof {
                assert(count(height) == row as nat);
                assert(clip_cols(x as int, y as int, count(height), colors@, (col + 1) as nat, sw, sh) =~= before
                    + clip_col(px as int, y as int, row as nat, sw, sh, color));
            }
        }
        col = col + 1;
    }
}

/// The write of cell `(row, col)` of the glyph of `c` at `(sx, y)`: its
/// pixel when the bit is set and the pixel is on the screen.
pub open spec fn safe_cell(sx: int, y: int, c: char, row: int, col: int, w: usize, h: usize, color: Color) -> Seq<
    PixelWrite,
> {
    if on_screen(sx + col, y + row, w, h) && glyph_bit(c, row, col) {
        seq![(sx + col, y + row, color)]
    } else {
        Seq::empty()
    }
}

/// The writes of the first `n` cells, row by row, of the glyph of `c` at
/// `(sx, y)`.
pub open spec fn safe_char_cells(sx: int, y: int, c: char, n: nat, w: usize, h: usize, color: Color) -> Seq<
    PixelWrite,
>
    decreases n,
{
    if n == 0 {
        Seq::empty()
    } else {
        let k = n - 1;
        safe_char_cells(sx, y, c, k as nat, w, h, color) + safe_cell(sx, y, c, k / 8, k % 8, w, h, color)
    }
}

/// The writes of `s` from `(x, y)`, eight pixels a character, clipped to
/// the screen; characters outside ASCII take their place but draw nothing.
pub open spec fn safe_string(x: int, y: int, s: Seq<char>, w: usize, h: usize, color: Color) -> Seq<PixelWrite>
    decreases s.len(),
{
    if s.len() == 0 {
        Seq::empty()
    } else {
        safe_char_cells(x, y, s[0], 64, w, h, color) + safe_string(x + 8, y, s.drop_first(), w, h, color)
    }
}

/// Whether `s` holds an ASCII character.
pub open spec fn has_ascii(s: Seq<char>) -> bool {
    exists|i: int| 0 <= i < s.len() && (#[trigger] s[i] as u32) < 128
}

/// The cells of a glyph row off the screen write nothing.
proof fn lemma_row_off(sx: int, y: int, c: char, row: int, k: nat, w: usize, h: usize, color: Color)
    requires
        0 <= row < 8,
        k <= 8,
        !(0 <= y + row < (h as i32)),
    ensures
        safe_char_cells(sx, y, c, (row * 8 + k) as nat, w, h, color) =~= safe_char_cells(
            sx,
            y,
            c,
            (row * 8) as nat,
            w,
            h,
            color,
        ),
    decreases k,
{
    if k > 0 {
        lemma_row_off(sx, y, c, row, (k - 1) as nat, w, h, color);
        let j = row * 8 + k - 1;
        assert(j / 8 == row && j % 8 == k - 1) by (nonlinear_arith)
            requires
                j == row * 8 + k - 1,
                1 <= k <= 8,
        ;
        assert(safe_cell(sx, y, c, j / 8, j % 8, w, h, color) =~= Seq::<PixelWrite>::empty());
    }
}

/// Draws the glyph of `c` at `(sx, y)` clipped to the screen; see
/// `safe_char_cells`.
fn draw_char_safe(graphics: &mut UefiGraphics, sx: i32, y: i32, c: char, color: Color)
    requires
        old(graphics).wf(),
        sx + 7 <= i32::MAX,
        (c as u32) < 128 ==> y + 7 <= i32::MAX,
    ensures
        final(graphics).wf(),
        final(graphics).canvas() == write_all(
            old(graphics).canvas(),
            old(graphics).width as int,
            old(graphics).height as int,
            safe_char_cells(sx as int, y as int, c, 64, old(graphics).width, old(graphics).height, color),
        ),
        final(graphics).same_device(*old(graphics)),
        final(graphics).same_mouse(*old(graphics)),
{
    let ghost cv0 = graphics.canvas();
    let ghost w = graphics.width as int;
    let ghost h = graphics.height as int;
    let ghost sw = graphics.width;
    let ghost sh = graphics.height;
    let codepoint = c as u32 as usize;
    if codepoint >= 128 {
        proof {
            assert forall|k: nat| k <= 64 implies #[trigger] safe_char_cells(sx as int, y as int, c, k, sw, sh, color)
                =~= Seq::<PixelWrite>::empty() by {
                lemma_no_glyph(sx as int, y as int, c, k, sw, sh, color);
            }
        }
        return;
    }
    let bitmap = font_glyph(codepoint);
    let mut row: i32 = 0;
    while row < 8
        invariant
            graphics.wf(),
            graphics.same_device(*old(graphics)),
            graphics.same_mouse(*old(graphics)),
            graphics.width == sw && graphics.height == sh,
            w == sw && h == sh,
            0 <= row <= 8,
            (c as u32) < 128,
            codepoint == c as u32,
            bitmap@ == glyph(codepoint as int),
            sx + 7 <= i32::MAX,
            y + 7 <= i32::MAX,
            graphics.canvas() == write_all(cv0, w, h, safe_char_cells(sx as int, y as int, c, (row * 8) as nat, sw, sh, color)),
        decreases 8 - row,
    {
        let py = y + row;
        if py < 0 || py >= graphics.height as i32 {
            proof {
                lemma_row_off(sx as int, y as int, c, row as int, 8, sw, sh, color);
            }
        } else {
            let row_val = bitmap[row as usize];
            let mut col: i32 = 0;
            while col < 8
                invariant
                    graphics.wf(),
                    graphics.same_device(*old(graphics)),
                    graphics.same_mouse(*old(graphics)),
                    graphics.width == sw && graphics.height == sh,
                    w == sw && h == sh,
                    0 <= row < 8,
                    0 <= col <= 8,
                    (c as u32) < 128,
                    codepoint == c as u32,
                    row_val == glyph(codepoint as int)[row as int],
                    py == y + row,
                    0 <= py < (sh as i32),
                    sx + 7 <= i32::MAX,
                    graphics.canvas() == write_all(
                        cv0,
                        w,
                        h,
                        safe_char_cells(sx as int, y as int, c, (row * 8 + col) as nat, sw, sh, color),
                    ),
                decreases 8 - col,
            {
                let px = sx + col;
                let ghost k = row * 8 + col;
                let ghost cur = safe_char_cells(sx as int, y as int, c, k as nat, sw, sh, color);
                proof {
                    assert(k / 8 == row as int && k % 8 == col as int) by (nonlinear_arith)
                        requires
                            k == row * 8 + col,
                            0 <= col < 8,
                    ;
                }
                let set = (row_val & (0x80u8 >> (col as u8))) != 0;
                assert(set == glyph_bit(c, row as int, col as int));
                if px < 0 || px >= graphics.width as i32 || !set {
                    proof {
                        assert(safe_cell(sx as int, y as int, c, row as int, col as int, sw, sh, color) =~= Seq::<
                            PixelWrite,
                        >::empty());
                        assert(safe_char_cells(sx as int, y as int, c, (k + 1) as nat, sw, sh, color) =~= cur);
                    }
                } else {
                    graphics.write_pixel(px as usize, py as usize, color);
                    proof {
                        lemma_write_one(write_all(cv0, w, h, cur), w, h, (px as int, py as int, color));
                        lemma_write_all_append(cv0, w, h, cur, seq![(px as int, py as int, color)]);
                        assert(safe_char_cells(sx as int, y as int, c, (k + 1) as nat, sw, sh, color) =~= cur + seq![(
                            px as int,
                            py as int,
                            color,
                        )]);
                    }
                }
                col = col + 1;
            }
        }
        row = row + 1;
    }
}

/// A character outside ASCII draws nothing.
proof fn lemma_no_glyph(sx: int, y: int, c: char, k: nat, w: usize, h: usize, color: Color)
    requires
        (c as u32) >= 128,
    ensures
        safe_char_cells(sx, y, c, k, w, h, color) =~= Seq::<PixelWrite>::empty(),
    decreases k,
{
    if k > 0 {
        lemma_no_glyph(sx, y, c, (k - 1) as nat, w, h, color);
    }
}

/// Draws `text` from `(x, y)`, eight pixels a character, clipped to the
/// screen; see `safe_string`.
pub fn draw_string_safe(graphics: &mut UefiGraphics, x: i32, y: i32, text: &str, color: Color)
    requires
        old(graphics).wf(),
        x + 8 * text@.len() <= i32::MAX,
        has_ascii(text@) ==> y + 7 <= i32::MAX,
    ensures
        final(graphics).wf(),
        final(graphics).canvas() == write_all(
            old(graphics).canvas(),
            old(graphics).width as int,
            old(graphics).height as int,
            safe_string(x as int, y as int, text@, old(graphics).width, old(graphics).height, color),
        ),
        final(graphics).same_device(*old(graphics)),
        final(graphics).same_mouse(*old(graphics)),
{
    let ghost cv0 = graphics.canvas();
    let ghost w = graphics.width as int;
    let ghost h = graphics.height as int;
    let ghost sw = graphics.width;
    let ghost sh = graphics.height;
    let ghost all = safe_string(x as int, y as int, text@, sw, sh, color);
    let n = text.unicode_len();
    let mut sx: i32 = x;
    let mut i: usize = 0;
    let ghost mut done: Seq<PixelWrite> = Seq::empty();
    proof {
        assert(text@.skip(0) =~= text@);
        assert(done + all =~= all);
    }
    while i < n
        invariant
            i <= n,
            n == text@.len(),
            graphics.wf(),
            graphics.same_device(*old(graphics)),
            graphics.same_mouse(*old(graphics)),
            graphics.width == sw && graphics.height == sh,
            w == sw && h == sh,
            sx == x + 8 * i,
            x + 8 * text@.len() <= i32::MAX,
            has_ascii(text@) ==> y + 7 <= i32::MAX,
            graphics.canvas() == write_all(cv0, w, h, done),
            all == done + safe_string(sx as int, y as int, text@.skip(i as int), sw, sh, color),
        decreases n - i,
    {
        let c = text.get_char(i);
        let ghost rest = text@.skip(i as int);
        assert(rest[0] == c);
        assert(rest.drop_first() =~= text@.skip(i + 1));
        if (c as u32) < 128 {
            assert(has_ascii(text@)) by {
                assert(text@[i as int] == c);
            }
        }
        draw_char_safe(graphics, sx, y, c, color);
        proof {
            let cw = safe_char_cells(sx as int, y as int, c, 64, sw, sh, color);
            lemma_write_all_append(cv0, w, h, done, cw);
            assert(done + safe_string(sx as int, y as int, rest, sw, sh, color) =~= (done + cw) + safe_string(
                sx + 8,
                y as int,
                rest.drop_first(),
                sw,
                sh,
                color,
            ));
            done = done + cw;
        }
        sx = sx + 8;
        i = i + 1;
    }
    proof {
        assert(text@.skip(n as int).len() == 0);
        assert(done + Seq::<PixelWrite>::empty() =~= done);
    }
}

} // verus!
