//! The kernel's display driver: an off-screen canvas of colours with
//! damage tracking, copied into the frame buffer memory in its pixel
//! layout, with a save area under the mouse cursor.
use vstd::prelude::*;
use crate::window::{Color, glyph, font_glyph};

verus! {

/// Byte layout of a frame buffer pixel.
#[derive(Debug, Clone, Copy, PartialEq, Eq, Structural)]
pub enum PixelFormat {
    /// Red, green, blue.
    Rgb,
    /// Blue, green, red.
    Bgr,
    /// One grey byte.
    U8,
    /// A layout the driver does not write.
    Unknown,
}

/// Background colour of the screen.
pub open spec fn color_bg() -> Color {
    Color { r: 13, g: 15, b: 18 }
}

/// Background of the dashboard cards.
pub open spec fn color_panel() -> Color {
    Color { r: 24, g: 28, b: 34 }
}

/// Cyan-blue accent.
pub open spec fn color_accent_blue() -> Color {
    Color { r: 0, g: 150, b: 255 }
}

/// Green accent.
pub open spec fn color_accent_green() -> Color {
    Color { r: 32, g: 223, b: 127 }
}

/// Purple accent.
pub open spec fn color_accent_purple() -> Color {
    Color { r: 147, g: 51, b: 234 }
}

/// Main text colour.
pub open spec fn color_text_white() -> Color {
    Color { r: 243, g: 244, b: 246 }
}

/// Secondary text colour.
pub open spec fn color_text_muted() -> Color {
    Color { r: 107, g: 114, b: 128 }
}

/// The canvas as its pixels, row by row, and its dirty box: the least
/// and greatest column and row written since the last copy.
pub type Canvas = (Seq<Color>, int, int, int, int);

/// A write of colour `.2` at column `.0`, row `.1`.
pub type PixelWrite = (int, int, Color);

/// Writing `c` at `(x, y)` of a `w` by `h` canvas: a pixel off the canvas
/// is ignored; otherwise it is set and the dirty box grows to cover it.
pub open spec fn write_spec(cv: Canvas, w: int, h: int, x: int, y: int, c: Color) -> Canvas {
    if 0 <= x < w && 0 <= y < h {
        (
            cv.0.update(y * w + x, c),
            if x < cv.1 {
                x
            } else {
                cv.1
            },
            if y < cv.2 {
                y
            } else {
                cv.2
            },
            if x > cv.3 {
                x
            } else {
                cv.3
            },
            if y > cv.4 {
                y
            } else {
                cv.4
            },
        )
    } else {
        cv
    }
}

/// The writes `ws` done in order.
pub open spec fn write_all(cv: Canvas, w: int, h: int, ws: Seq<PixelWrite>) -> Canvas
    decreases ws.len(),
{
    if ws.len() == 0 {
        cv
    } else {
        let last = ws.last();
        write_spec(write_all(cv, w, h, ws.drop_last()), w, h, last.0, last.1, last.2)
    }
}

/// Writes in sequence are the writes of the concatenation.
pub proof fn lemma_write_all_append(cv: Canvas, w: int, h: int, a: Seq<PixelWrite>, b: Seq<PixelWrite>)
    ensures
        write_all(cv, w, h, a + b) == write_all(write_all(cv, w, h, a), w, h, b),
    decreases b.len(),
{
    if b.len() == 0 {
        assert(a + b =~= a);
    } else {
        lemma_write_all_append(cv, w, h, a, b.drop_last());
        assert((a + b).drop_last() =~= a + b.drop_last());
    }
}

/// The writes of row `y` from column `x`, `n` pixels long, left to right.
pub open spec fn row_writes(x: int, y: int, n: nat, c: Color) -> Seq<PixelWrite>
    decreases n,
{
    if n == 0 {
        Seq::empty()
    } else {
        row_writes(x, y, (n - 1) as nat, c).push((x + n - 1, y, c))
    }
}

/// The writes of the rectangle `width` by `rows` at `(x, y)`, row by row.
pub open spec fn rect_writes(x: int, y: int, width: nat, rows: nat, c: Color) -> Seq<PixelWrite>
    decreases rows,
{
    if rows == 0 {
        Seq::empty()
    } else {
        rect_writes(x, y, width, (rows - 1) as nat, c) + row_writes(x, y + rows - 1, width, c)
    }
}

/// The display driver.
pub struct UefiGraphics {
    /// The frame buffer memory.
    pub buffer: Vec<u8>,
    /// Screen width in pixels.
    pub width: usize,
    /// Screen height in pixels.
    pub height: usize,
    /// Pixels per scan line of the frame buffer.
    pub stride: usize,
    /// Bytes per pixel of the frame buffer.
    pub bytes_per_pixel: usize,
    /// Byte layout of a pixel.
    pub format: PixelFormat,
    /// The pixels under the mouse cursor, 12 by 12, row by row.
    pub mouse_backbuffer: Vec<Color>,
    /// Whether `mouse_backbuffer` holds saved pixels.
    pub mouse_saved: bool,
    /// Column of the saved area.
    pub mouse_saved_x: usize,
    /// Row of the saved area.
    pub mouse_saved_y: usize,
    /// The off-screen canvas, `width * height` pixels row by row.
    pub backbuffer: Vec<Color>,
    /// Least column written since the last copy.
    pub dirty_x1: usize,
    /// Least row written since the last copy.
    pub dirty_y1: usize,
    /// Greatest column written since the last copy.
    pub dirty_x2: usize,
    /// Greatest row written since the last copy.
    pub dirty_y2: usize,
}

impl UefiGraphics {
    /// The canvas fits its pixels and the save area holds 12 by 12 pixels.
    pub open spec fn wf(&self) -> bool {
        &&& self.width * self.height <= usize::MAX
        &&& self.backbuffer@.len() == self.width * self.height
        &&& self.mouse_backbuffer@.len() == 144
    }

    /// The canvas and its dirty box.
    pub open spec fn canvas(&self) -> Canvas {
        (
            self.backbuffer@,
            self.dirty_x1 as int,
            self.dirty_y1 as int,
            self.dirty_x2 as int,
            self.dirty_y2 as int,
        )
    }

    /// The frame buffer and its geometry are those of `other`.
    pub open spec fn same_device(&self, other: Self) -> bool {
        &&& self.buffer@ == other.buffer@
        &&& self.width == other.width
        &&& self.height == other.height
        &&& self.stride == other.stride
        &&& self.bytes_per_pixel == other.bytes_per_pixel
        &&& self.format == other.format
    }

    /// The save area under the cursor is that of `other`.
    pub open spec fn same_mouse(&self, other: Self) -> bool {
        &&& self.mouse_backbuffer@ == other.mouse_backbuffer@
        &&& self.mouse_saved == other.mouse_saved
        &&& self.mouse_saved_x == other.mouse_saved_x
        &&& self.mouse_saved_y == other.mouse_saved_y
    }

    /// The dirty box is empty.
    pub open spec fn clean(&self) -> bool {
        &&& self.dirty_x1 == usize::MAX
        &&& self.dirty_y1 == usize::MAX
        &&& self.dirty_x2 == 0
        &&& self.dirty_y2 == 0
    }

    /// A driver for a frame buffer `buffer` of the given geometry, its
    /// canvas filled with the background colour and nothing dirty.
    pub fn new(
        buffer: Vec<u8>,
        width: usize,
        height: usize,
        stride: usize,
        bytes_per_pixel: usize,
        format: PixelFormat,
    ) -> (g: Self)
        requires
            width * height <= usize::MAX,
        ensures
            g.wf(),
            g.buffer@ == buffer@,
            g.width == width && g.height == height && g.stride == stride,
            g.bytes_per_pixel == bytes_per_pixel && g.format == format,
            g.backbuffer@ == Seq::new((width * height) as nat, |p: int| color_bg()),
            g.mouse_backbuffer@ == Seq::new(144, |p: int| color_bg()),
            !g.mouse_saved && g.mouse_saved_x == 0 && g.mouse_saved_y == 0,
            g.clean(),
    {
        let size = width * height;
        let mut backbuffer: Vec<Color> = Vec::with_capacity(size);
        let mut k: usize = 0;
        while k < size
            invariant
                k <= size,
                backbuffer@ == Seq::new(k as nat, |p: int| color_bg()),
            decreases size - k,
        {
            backbuffer.push(Color { r: 13, g: 15, b: 18 });
            k = k + 1;
            assert(backbuffer@ =~= Seq::new(k as nat, |p: int| color_bg()));
        }
        let mut mouse_backbuffer: Vec<Color> = Vec::new();
        let mut m: usize = 0;
        while m < 144
            invariant
                m <= 144,
                mouse_backbuffer@ == Seq::new(m as nat, |p: int| color_bg()),
            decreases 144 - m,
        {
            mouse_backbuffer.push(Color { r: 13, g: 15, b: 18 });
            m = m + 1;
            assert(mouse_backbuffer@ =~= Seq::new(m as nat, |p: int| color_bg()));
        }
        let mut g = UefiGraphics {
            buffer,
            width,
            height,
            stride,
            bytes_per_pixel,
            format,
            mouse_backbuffer,
            mouse_saved: false,
            mouse_saved_x: 0,
            mouse_saved_y: 0,
            backbuffer,
            dirty_x1: usize::MAX,
            dirty_y1: usize::MAX,
            dirty_x2: 0,
            dirty_y2: 0,
        };
        g.reset_dirty();
        g
    }

    /// Empties the dirty box.
    pub fn reset_dirty(&mut self)
        ensures
            final(self).clean(),
            final(self).backbuffer@ == old(self).backbuffer@,
            final(self).same_device(*old(self)),
            final(self).same_mouse(*old(self)),
    {
        self.dirty_x1 = usize::MAX;
        self.dirty_y1 = usize::MAX;
        self.dirty_x2 = 0;
        self.dirty_y2 = 0;
    }

    /// Forgets the pixels saved under the cursor.
    pub fn invalidate_mouse(&mut self)
        ensures
            !final(self).mouse_saved,
            final(self).mouse_backbuffer@ == old(self).mouse_backbuffer@,
            final(self).mouse_saved_x == old(self).mouse_saved_x,
            final(self).mouse_saved_y == old(self).mouse_saved_y,
            final(self).canvas() == old(self).canvas(),
            final(self).same_device(*old(self)),
    {
        self.mouse_saved = false;
    }

    /// Pixel `(x, y)` of the canvas; the background colour off it.
    pub fn read_pixel(&self, x: usize, y: usize) -> (c: Color)
        requires
            self.wf(),
        ensures
            c == read_spec(self.canvas(), self.width as int, self.height as int, x as int, y as int),
    {
        if x >= self.width || y >= self.height {
            return Color { r: 13, g: 15, b: 18 };
        }
        proof {
            lemma_pixel_in(self.width as int, self.height as int, x as int, y as int);
        }
        self.backbuffer[y * self.width + x]
    }

    /// Writes `color` at `(x, y)`; see `write_spec`.
    pub fn write_pixel(&mut self, x: usize, y: usize, color: Color)
        requires
            old(self).wf(),
        ensures
            final(self).wf(),
            final(self).canvas() == write_spec(
                old(self).canvas(),
                old(self).width as int,
                old(self).height as int,
                x as int,
                y as int,
                color,
            ),
            final(self).same_device(*old(self)),
            final(self).same_mouse(*old(self)),
    {
        if x >= self.width || y >= self.height {
            return;
        }
        proof {
            lemma_pixel_in(self.width as int, self.height as int, x as int, y as int);
        }
        self.backbuffer.set(y * self.width + x, color);
        if x < self.dirty_x1 {
            self.dirty_x1 = x;
        }
        if x > self.dirty_x2 {
            self.dirty_x2 = x;
        }
        if y < self.dirty_y1 {
            self.dirty_y1 = y;
        }
        if y > self.dirty_y2 {
            self.dirty_y2 = y;
        }
    }
}

/// Pixel `(x, y)` of the canvas; the background colour off it.
pub open spec fn read_spec(cv: Canvas, w: int, h: int, x: int, y: int) -> Color {
    if 0 <= x < w && 0 <= y < h {
        cv.0[y * w + x]
    } else {
        color_bg()
    }
}

/// A pixel on the canvas has its place in it.
proof fn lemma_pixel_in(w: int, h: int, x: int, y: int)
    requires
        0 <= x < w,
        0 <= y < h,
    ensures
        0 <= y * w + x < w * h,
{
    assert(0 <= y * w + x < w * h) by (nonlinear_arith)
        requires
            0 <= x < w,
            0 <= y < h,
    ;
}

/// The mouse cursor mask, 12 by 12: 1 for its border, 2 for its body, 0
/// for transparent.
pub open spec fn mouse_mask() -> Seq<Seq<u8>> {
    seq![
        seq![1u8, 0, 0, 0, 0, 0, 0, 0, 0, 0, 0, 0],
        seq![1u8, 1, 0, 0, 0, 0, 0, 0, 0, 0, 0, 0],
        seq![1u8, 2, 1, 0, 0, 0, 0, 0, 0, 0, 0, 0],
        seq![1u8, 2, 2, 1, 0, 0, 0, 0, 0, 0, 0, 0],
        seq![1u8, 2, 2, 2, 1, 0, 0, 0, 0, 0, 0, 0],
        seq![1u8, 2, 2, 2, 2, 1, 0, 0, 0, 0, 0, 0],
        seq![1u8, 2, 2, 2, 2, 2, 1, 0, 0, 0, 0, 0],
        seq![1u8, 2, 2, 2, 2, 2, 2, 1, 0, 0, 0, 0],
        seq![1u8, 2, 2, 2, 1, 1, 1, 1, 1, 0, 0, 0],
        seq![1u8, 2, 2, 1, 0, 0, 0, 0, 0, 0, 0, 0],
        seq![1u8, 2, 1, 0, 0, 0, 0, 0, 0, 0, 0, 0],
        seq![1u8, 1, 0, 0, 0, 0, 0, 0, 0, 0, 0, 0],
    ]
}

/// Border colour of the cursor.
pub open spec fn cursor_border() -> Color {
    Color { r: 0, g: 245, b: 255 }
}

/// Body colour of the cursor.
pub open spec fn cursor_body() -> Color {
    Color { r: 255, g: 0, b: 160 }
}

/// The writes that draw the first `n` cells of the cursor (row by row)
/// with its top-left cell at `(mx, my)`; transparent cells write nothing.
pub open spec fn cursor_writes(mx: int, my: int, n: nat) -> Seq<PixelWrite>
    decreases n,
{
    if n == 0 {
        Seq::empty()
    } else {
        let k = n - 1;
        let m = mouse_mask()[k / 12][k % 12];
        cursor_writes(mx, my, k as nat) + if m != 0 {
            seq![
                (mx + k % 12, my + k / 12, if m == 1 {
                    cursor_border()
                } else {
                    cursor_body()
                }),
            ]
        } else {
            Seq::empty()
        }
    }
}

/// The writes that put back the first `n` saved pixels `saved` (row by
/// row) with the top-left one at `(mx, my)`.
pub open spec fn restore_writes(mx: int, my: int, saved: Seq<Color>, n: nat) -> Seq<PixelWrite>
    decreases n,
{
    if n == 0 {
        Seq::empty()
    } else {
        let k = n - 1;
        restore_writes(mx, my, saved, k as nat).push((mx + k % 12, my + k / 12, saved[k]))
    }
}

/// Row `dy` of the cursor mask.
fn mask_row(dy: usize) -> (cells: [u8; 12])
    requires
        dy < 12,
    ensures
        cells@ == mouse_mask()[dy as int],
{
    let cells = match dy {
        0 => [1u8, 0, 0, 0, 0, 0, 0, 0, 0, 0, 0, 0],
        1 => [1u8, 1, 0, 0, 0, 0, 0, 0, 0, 0, 0, 0],
        2 => [1u8, 2, 1, 0, 0, 0, 0, 0, 0, 0, 0, 0],
        3 => [1u8, 2, 2, 1, 0, 0, 0, 0, 0, 0, 0, 0],
        4 => [1u8, 2, 2, 2, 1, 0, 0, 0, 0, 0, 0, 0],
        5 => [1u8, 2, 2, 2, 2, 1, 0, 0, 0, 0, 0, 0],
        6 => [1u8, 2, 2, 2, 2, 2, 1, 0, 0, 0, 0, 0],
        7 => [1u8, 2, 2, 2, 2, 2, 2, 1, 0, 0, 0, 0],
        8 => [1u8, 2, 2, 2, 1, 1, 1, 1, 1, 0, 0, 0],
        9 => [1u8, 2, 2, 1, 0, 0, 0, 0, 0, 0, 0, 0],
        10 => [1u8, 2, 1, 0, 0, 0, 0, 0, 0, 0, 0, 0],
        _ => [1u8, 1, 0, 0, 0, 0, 0, 0, 0, 0, 0, 0],
    };
    assert(cells@ =~= mouse_mask()[dy as int]);
    cells
}

impl UefiGraphics {
    /// Fills the rectangle `width` by `height` at `(x, y)`, row by row;
    /// pixels off the canvas are skipped.
    pub fn draw_rect(&mut self, x: usize, y: usize, width: usize, height: usize, color: Color)
        requires
            old(self).wf(),
            width > 0 && height > 0 ==> x + width - 1 <= usize::MAX && y + height - 1 <= usize::MAX,
        ensures
            final(self).wf(),
            final(self).canvas() == write_all(
                old(self).canvas(),
                old(self).width as int,
                old(self).height as int,
                rect_writes(x as int, y as int, width as nat, height as nat, color),
            ),
            final(self).same_device(*old(self)),
            final(self).same_mouse(*old(self)),
    {
        let ghost cv0 = self.canvas();
        let ghost w = self.width as int;
        let ghost h = self.height as int;
        let mut row: usize = 0;
        while row < height
            invariant
                self.wf(),
                self.same_device(*old(self)),
                self.same_mouse(*old(self)),
                w == self.width && h == self.height,
                row <= height,
                width > 0 && height > 0 ==> x + width - 1 <= usize::MAX && y + height - 1 <= usize::MAX,
                self.canvas() == write_all(cv0, w, h, rect_writes(x as int, y as int, width as nat, row as nat, color)),
            decreases height - row,
        {
            let ghost before = rect_writes(x as int, y as int, width as nat, row as nat, color);
            let mut col: usize = 0;
            proof {
                assert(before + row_writes(x as int, y + row, 0, color) =~= before);
            }
            while col < width
                invariant
                    self.wf(),
                    self.same_device(*old(self)),
                    self.same_mouse(*old(self)),
                    w == self.width && h == self.height,
                    row < height,
                    col <= width,
                    width > 0 && height > 0 ==> x + width - 1 <= usize::MAX && y + height - 1 <= usize::MAX,
                    before == rect_writes(x as int, y as int, width as nat, row as nat, color),
                    self.canvas() == write_all(cv0, w, h, before + row_writes(x as int, y + row, col as nat, color)),
                decreases width - col,
            {
                self.write_pixel(x + col, y + row, color);
                proof {
                    let r1 = row_writes(x as int, y + row, (col + 1) as nat, color);
                    assert((before + r1).drop_last() =~= before + row_writes(x as int, y + row, col as nat, color));
                    assert((before + r1).last() == (x + col, y + row, color));
                }
                col = col + 1;
            }
            row = row + 1;
        }
    }

    /// Fills the whole canvas with `color` and forgets the pixels saved
    /// under the cursor.
    pub fn clear(&mut self, color: Color)
        requires
            old(self).wf(),
        ensures
            final(self).wf(),
            final(self).canvas() == write_all(
                old(self).canvas(),
                old(self).width as int,
                old(self).height as int,
                rect_writes(0, 0, old(self).width as nat, old(self).height as nat, color),
            ),
            final(self).same_device(*old(self)),
            !final(self).mouse_saved,
            final(self).mouse_backbuffer@ == old(self).mouse_backbuffer@,
    {
        self.invalidate_mouse();
        let w = self.width;
        let h = self.height;
        self.draw_rect(0, 0, w, h, color);
    }

    /// Draws the mouse cursor with its top-left cell at `(mx, my)`; see
    /// `cursor_writes`.
    pub fn draw_cursor(&mut self, mx: usize, my: usize)
        requires
            old(self).wf(),
            mx + 8 <= usize::MAX,
            my + 11 <= usize::MAX,
        ensures
            final(self).wf(),
            final(self).canvas() == write_all(
                old(self).canvas(),
                old(self).width as int,
                old(self).height as int,
                cursor_writes(mx as int, my as int, 144),
            ),
            final(self).same_device(*old(self)),
            final(self).same_mouse(*old(self)),
    {
        let ghost cv0 = self.canvas();
        let ghost w = self.width as int;
        let ghost h = self.height as int;
        let cyan = Color { r: 0, g: 245, b: 255 };
        let pink = Color { r: 255, g: 0, b: 160 };
        let mut dy: usize = 0;
        while dy < 12
            invariant
                self.wf(),
                self.same_device(*old(self)),
                self.same_mouse(*old(self)),
                w == self.width && h == self.height,
                dy <= 12,
                mx + 8 <= usize::MAX,
                my + 11 <= usize::MAX,
                cyan == cursor_border() && pink == cursor_body(),
                self.canvas() == write_all(cv0, w, h, cursor_writes(mx as int, my as int, (dy * 12) as nat)),
            decreases 12 - dy,
        {
            let cells = mask_row(dy);
            let mut dx: usize = 0;
            while dx < 12
                invariant
                    self.wf(),
                    self.same_device(*old(self)),
                    self.same_mouse(*old(self)),
                    w == self.width && h == self.height,
                    dy < 12,
                    dx <= 12,
                    mx + 8 <= usize::MAX,
                    my + 11 <= usize::MAX,
                    cyan == cursor_border() && pink == cursor_body(),
                    cells@ == mouse_mask()[dy as int],
                    self.canvas() == write_all(cv0, w, h, cursor_writes(mx as int, my as int, (dy * 12 + dx) as nat)),
                decreases 12 - dx,
            {
                let kind = cells[dx];
                let ghost k = dy * 12 + dx;
                assert(k / 12 == dy && k % 12 == dx);
                if kind != 0 {
                    assert(dx <= 8);
                    let color = if kind == 1 {
                        cyan
                    } else {
                        pink
                    };
                    self.write_pixel(mx + dx, my + dy, color);
                }
                proof {
                    let ws = cursor_writes(mx as int, my as int, (k + 1) as nat);
                    if kind != 0 {
                        assert(ws.drop_last() =~= cursor_writes(mx as int, my as int, k as nat));
                    } else {
                        assert(ws =~= cursor_writes(mx as int, my as int, k as nat));
                    }
                }
                dx = dx + 1;
            }
            dy = dy + 1;
        }
    }

    /// Saves the 12 by 12 pixels from `(mx, my)` (the background colour for
    /// pixels off the canvas) so that the cursor can be drawn over them.
    pub fn save_mouse_backbuffer(&mut self, mx: usize, my: usize)
        requires
            old(self).wf(),
            mx + 11 <= usize::MAX,
            my + 11 <= usize::MAX,
        ensures
            final(self).wf(),
            final(self).canvas() == old(self).canvas(),
            final(self).same_device(*old(self)),
            final(self).mouse_saved,
            final(self).mouse_saved_x == mx && final(self).mouse_saved_y == my,
            final(self).mouse_backbuffer@ == Seq::new(
                144,
                |k: int|
                    read_spec(
                        old(self).canvas(),
                        old(self).width as int,
                        old(self).height as int,
                        mx + k % 12,
                        my + k / 12,
                    ),
            ),
    {
        self.mouse_saved_x = mx;
        self.mouse_saved_y = my;
        self.mouse_saved = true;
        let ghost cv0 = self.canvas();
        let ghost w = self.width as int;
        let ghost h = self.height as int;
        let mut dy: usize = 0;
        while dy < 12
            invariant
                self.wf(),
                self.canvas() == cv0,
                self.same_device(*old(self)),
                w == self.width && h == self.height,
                self.mouse_saved && self.mouse_saved_x == mx && self.mouse_saved_y == my,
                dy <= 12,
                mx + 11 <= usize::MAX,
                my + 11 <= usize::MAX,
                forall|k: int|
                    0 <= k < dy * 12 ==> #[trigger] self.mouse_backbuffer@[k] == read_spec(cv0, w, h, mx + k % 12, my + k / 12),
            decreases 12 - dy,
        {
            let mut dx: usize = 0;
            while dx < 12
                invariant
                    self.wf(),
                    self.canvas() == cv0,
                    self.same_device(*old(self)),
                    w == self.width && h == self.height,
                    self.mouse_saved && self.mouse_saved_x == mx && self.mouse_saved_y == my,
                    dy < 12,
                    dx <= 12,
                    mx + 11 <= usize::MAX,
                    my + 11 <= usize::MAX,
                    forall|k: int|
                        0 <= k < dy * 12 + dx ==> #[trigger] self.mouse_backbuffer@[k] == read_spec(cv0, w, h, mx + k % 12, my + k / 12),
                decreases 12 - dx,
            {
                let c = self.read_pixel(mx + dx, my + dy);
                let ghost k = dy * 12 + dx;
                assert(k / 12 == dy && k % 12 == dx);
                self.mouse_backbuffer.set(dy * 12 + dx, c);
                dx = dx + 1;
            }
            dy = dy + 1;
        }
        assert(self.mouse_backbuffer@ =~= Seq::new(144, |k: int| read_spec(cv0, w, h, mx + k % 12, my + k / 12)));
    }

    /// Puts back the pixels saved under the cursor, if any, and forgets
    /// them; see `restore_writes`.
    pub fn restore_mouse_backbuffer(&mut self)
        requires
            old(self).wf(),
            old(self).mouse_saved ==> old(self).mouse_saved_x + 11 <= usize::MAX && old(self).mouse_saved_y + 11
                <= usize::MAX,
        ensures
            final(self).wf(),
            final(self).same_device(*old(self)),
            !final(self).mouse_saved,
            final(self).mouse_backbuffer@ == old(self).mouse_backbuffer@,
            final(self).mouse_saved_x == old(self).mouse_saved_x,
            final(self).mouse_saved_y == old(self).mouse_saved_y,
            final(self).canvas() == if old(self).mouse_saved {
                write_all(
                    old(self).canvas(),
                    old(self).width as int,
                    old(self).height as int,
                    restore_writes(
                        old(self).mouse_saved_x as int,
                        old(self).mouse_saved_y as int,
                        old(self).mouse_backbuffer@,
                        144,
                    ),
                )
            } else {
                old(self).canvas()
            },
    {
        if !self.mouse_saved {
            return;
        }
        let mx = self.mouse_saved_x;
        let my = self.mouse_saved_y;
        let ghost cv0 = self.canvas();
        let ghost w = self.width as int;
        let ghost h = self.height as int;
        let ghost saved = self.mouse_backbuffer@;
        let mut dy: usize = 0;
        while dy < 12
            invariant
                self.wf(),
                self.same_device(*old(self)),
                self.same_mouse(*old(self)),
                w == self.width && h == self.height,
                saved == self.mouse_backbuffer@,
                mx == self.mouse_saved_x && my == self.mouse_saved_y,
                dy <= 12,
                mx + 11 <= usize::MAX,
                my + 11 <= usize::MAX,
                self.canvas() == write_all(cv0, w, h, restore_writes(mx as int, my as int, saved, (dy * 12) as nat)),
            decreases 12 - dy,
        {
            let mut dx: usize = 0;
            while dx < 12
                invariant
                    self.wf(),
                    self.same_device(*old(self)),
                    self.same_mouse(*old(self)),
                    w == self.width && h == self.height,
                    saved == self.mouse_backbuffer@,
                    mx == self.mouse_saved_x && my == self.mouse_saved_y,
                    dy < 12,
                    dx <= 12,
                    mx + 11 <= usize::MAX,
                    my + 11 <= usize::MAX,
                    self.canvas() == write_all(cv0, w, h, restore_writes(mx as int, my as int, saved, (dy * 12 + dx) as nat)),
                decreases 12 - dx,
            {
                let ghost k = dy * 12 + dx;
                assert(k / 12 == dy && k % 12 == dx);
                let color = self.mouse_backbuffer[dy * 12 + dx];
                self.write_pixel(mx + dx, my + dy, color);
                proof {
                    let ws = restore_writes(mx as int, my as int, saved, (k + 1) as nat);
                    assert(ws.drop_last() =~= restore_writes(mx as int, my as int, saved, k as nat));
                }
                dx = dx + 1;
            }
            dy = dy + 1;
        }
        self.mouse_saved = false;
    }
}

/// The colour of the last of `ws` written at `(x, y)`, if any.
pub open spec fn last_write(ws: Seq<PixelWrite>, x: int, y: int) -> Option<Color>
    decreases ws.len(),
{
    if ws.len() == 0 {
        None
    } else if ws.last().0 == x && ws.last().1 == y {
        Some(ws.last().2)
    } else {
        last_write(ws.drop_last(), x, y)
    }
}

/// Distinct pixels of a canvas have distinct places.
proof fn lemma_place_unique(w: int, h: int, x1: int, y1: int, x2: int, y2: int)
    requires
        0 <= x1 < w,
        0 <= y1 < h,
        0 <= x2 < w,
        0 <= y2 < h,
        y1 * w + x1 == y2 * w + x2,
    ensures
        x1 == x2 && y1 == y2,
{
    if y1 < y2 {
        assert(y1 * w + x1 < y2 * w + x2) by (nonlinear_arith)
            requires
                y1 < y2,
                0 <= x1 < w,
                0 <= x2,
        ;
    } else if y2 < y1 {
        assert(y2 * w + x2 < y1 * w + x1) by (nonlinear_arith)
            requires
                y2 < y1,
                0 <= x2 < w,
                0 <= x1,
        ;
    }
}

/// A pixel of the canvas ends up with the last colour written to it, or
/// keeps its own when none was.
pub proof fn lemma_write_all_pixel(cv: Canvas, w: int, h: int, ws: Seq<PixelWrite>, x: int, y: int)
    requires
        cv.0.len() == w * h,
        0 <= x < w,
        0 <= y < h,
    ensures
        write_all(cv, w, h, ws).0.len() == w * h,
        write_all(cv, w, h, ws).0[y * w + x] == match last_write(ws, x, y) {
            Some(c) => c,
            None => cv.0[y * w + x],
        },
    decreases ws.len(),
{
    lemma_pixel_in(w, h, x, y);
    if ws.len() > 0 {
        lemma_write_all_pixel(cv, w, h, ws.drop_last(), x, y);
        let last = ws.last();
        if 0 <= last.0 < w && 0 <= last.1 < h && !(last.0 == x && last.1 == y) {
            lemma_pixel_in(w, h, last.0, last.1);
            if last.1 * w + last.0 == y * w + x {
                lemma_place_unique(w, h, last.0, last.1, x, y);
            }
        }
    }
}

/// The last restoring write to a pixel of the 12 by 12 block at
/// `(mx, my)` puts back its saved colour; pixels outside get none.
proof fn lemma_restore_last(mx: int, my: int, saved: Seq<Color>, n: nat, x: int, y: int)
    requires
        n <= 144,
    ensures
        last_write(restore_writes(mx, my, saved, n), x, y) == if 0 <= x - mx < 12 && 0 <= y - my && (y - my) * 12
            + (x - mx) < n {
            Some(saved[(y - my) * 12 + (x - mx)])
        } else {
            None::<Color>
        },
    decreases n,
{
    if n > 0 {
        let k = n - 1;
        lemma_restore_last(mx, my, saved, k as nat, x, y);
        let ws = restore_writes(mx, my, saved, n);
        assert(ws.drop_last() == restore_writes(mx, my, saved, k as nat));
        if mx + k % 12 == x && my + k / 12 == y {
            assert(k == (y - my) * 12 + (x - mx));
        } else if 0 <= x - mx < 12 && 0 <= y - my && (y - my) * 12 + (x - mx) < n {
            assert((y - my) * 12 + (x - mx) != k) by {
                if (y - my) * 12 + (x - mx) == k {
                    assert(k % 12 == x - mx && k / 12 == y - my);
                }
            }
        }
    }
}

/// The cursor writes nothing outside its 12 by 12 block.
proof fn lemma_cursor_outside(mx: int, my: int, n: nat, x: int, y: int)
    requires
        n <= 144,
        !(0 <= x - mx < 12 && 0 <= y - my < 12),
    ensures
        last_write(cursor_writes(mx, my, n), x, y) is None,
    decreases n,
{
    if n > 0 {
        let k = n - 1;
        lemma_cursor_outside(mx, my, k as nat, x, y);
        let m = mouse_mask()[k / 12][k % 12];
        if m != 0 {
            let ws = cursor_writes(mx, my, n);
            assert(ws.drop_last() =~= cursor_writes(mx, my, k as nat));
        } else {
            assert(cursor_writes(mx, my, n) =~= cursor_writes(mx, my, k as nat));
        }
    }
}

/// Saving the pixels under the cursor, drawing the cursor and restoring
/// them leaves the canvas as it was.
pub proof fn law_cursor_leaves_no_trace(cv: Canvas, w: int, h: int, mx: int, my: int)
    requires
        0 <= w,
        0 <= h,
        cv.0.len() == w * h,
    ensures
        ({
            let saved = Seq::new(144, |k: int| read_spec(cv, w, h, mx + k % 12, my + k / 12));
            let drawn = write_all(cv, w, h, cursor_writes(mx, my, 144));
            write_all(drawn, w, h, restore_writes(mx, my, saved, 144)).0 == cv.0
        }),
{
    let saved = Seq::new(144, |k: int| read_spec(cv, w, h, mx + k % 12, my + k / 12));
    let drawn = write_all(cv, w, h, cursor_writes(mx, my, 144));
    let back = write_all(drawn, w, h, restore_writes(mx, my, saved, 144));
    assert forall|p: int| 0 <= p < w * h implies #[trigger] back.0[p] == cv.0[p] by {
        let x = p % w;
        let y = p / w;
        assert(w > 0) by (nonlinear_arith)
            requires
                0 <= p < w * h,
                0 <= h,
        ;
        vstd::arithmetic::div_mod::lemma_fundamental_div_mod(p, w);
        assert(p == y * w + x) by (nonlinear_arith)
            requires
                p == w * (p / w) + p % w,
                x == p % w,
                y == p / w,
        ;
        assert(0 <= x < w);
        assert(0 <= y < h) by (nonlinear_arith)
            requires
                p == y * w + x,
                0 <= x < w,
                p < w * h,
                0 <= p,
        ;
        lemma_write_all_pixel(cv, w, h, cursor_writes(mx, my, 144), x, y);
        lemma_write_all_pixel(drawn, w, h, restore_writes(mx, my, saved, 144), x, y);
        lemma_restore_last(mx, my, saved, 144, x, y);
        if 0 <= x - mx < 12 && 0 <= y - my < 12 {
            let k = (y - my) * 12 + (x - mx);
            assert(k % 12 == x - mx && k / 12 == y - my);
        } else {
            lemma_cursor_outside(mx, my, 144, x, y);
            if 0 <= x - mx < 12 && 0 <= y - my {
                assert((y - my) * 12 + (x - mx) >= 144);
            }
        }
    }
    lemma_write_all_len(cv, w, h, cursor_writes(mx, my, 144));
    lemma_write_all_len(drawn, w, h, restore_writes(mx, my, saved, 144));
    assert(back.0 =~= cv.0);
}

/// Writes keep the number of pixels.
proof fn lemma_write_all_len(cv: Canvas, w: int, h: int, ws: Seq<PixelWrite>)
    requires
        cv.0.len() == w * h,
    ensures
        write_all(cv, w, h, ws).0.len() == cv.0.len(),
    decreases ws.len(),
{
    if ws.len() > 0 {
        lemma_write_all_len(cv, w, h, ws.drop_last());
        let last = ws.last();
        if 0 <= last.0 < w && 0 <= last.1 < h {
            lemma_pixel_in(w, h, last.0, last.1);
        }
    }
}

/// `buf` with the colour `c` stored at byte `off` in `format`: blue, green,
/// red or red, green, blue, or the red byte alone for grey; nothing when
/// three bytes from `off` do not fit or the format is unknown.
pub open spec fn put_color(buf: Seq<u8>, off: int, c: Color, format: PixelFormat) -> Seq<u8> {
    if off + 3 > buf.len() {
        buf
    } else {
        match format {
            PixelFormat::Bgr => buf.update(off, c.b).update(off + 1, c.g).update(off + 2, c.r),
            PixelFormat::Rgb => buf.update(off, c.r).update(off + 1, c.g).update(off + 2, c.b),
            PixelFormat::U8 => buf.update(off, c.r),
            PixelFormat::Unknown => buf,
        }
    }
}

/// `buf` after copying pixels `x1` up to `x` (excluded) of canvas row `y`
/// into the frame buffer, left to right.
pub open spec fn blit_row(
    buf: Seq<u8>,
    bb: Seq<Color>,
    w: int,
    stride: int,
    bpp: int,
    format: PixelFormat,
    y: int,
    x1: int,
    x: int,
) -> Seq<u8>
    decreases x - x1,
{
    if x <= x1 {
        buf
    } else {
        put_color(
            blit_row(buf, bb, w, stride, bpp, format, y, x1, x - 1),
            (y * stride + x - 1) * bpp,
            bb[y * w + x - 1],
            format,
        )
    }
}

/// `buf` after copying columns `x1..=x2` of canvas rows `y1` up to `y`
/// (excluded) into the frame buffer, row by row.
pub open spec fn blit_rows(
    buf: Seq<u8>,
    bb: Seq<Color>,
    w: int,
    stride: int,
    bpp: int,
    format: PixelFormat,
    x1: int,
    x2: int,
    y1: int,
    y: int,
) -> Seq<u8>
    decreases y - y1,
{
    if y <= y1 {
        buf
    } else {
        blit_row(
            blit_rows(buf, bb, w, stride, bpp, format, x1, x2, y1, y - 1),
            bb,
            w,
            stride,
            bpp,
            format,
            y - 1,
            x1,
            x2 + 1,
        )
    }
}

/// The least of `a` and `b`.
pub open spec fn min_of(a: int, b: int) -> int {
    if a < b {
        a
    } else {
        b
    }
}

impl UefiGraphics {
    /// Nothing was written since the last copy.
    pub open spec fn nothing_dirty(&self) -> bool {
        self.dirty_x1 > self.dirty_x2 || self.dirty_y1 > self.dirty_y2
    }

    /// Copies the dirty box of the canvas, clamped to the screen, into the
    /// frame buffer in its pixel layout (see `blit_rows`) and empties the
    /// dirty box; does nothing when nothing is dirty.
    pub fn swap_buffers(&mut self)
        requires
            old(self).wf(),
            !old(self).nothing_dirty() ==> old(self).width > 0 && old(self).height > 0 && min_of(
                old(self).dirty_y2 as int,
                old(self).height - 1,
            ) * old(self).stride + min_of(old(self).dirty_x2 as int, old(self).width - 1) <= usize::MAX && (min_of(
                old(self).dirty_y2 as int,
                old(self).height - 1,
            ) * old(self).stride + min_of(old(self).dirty_x2 as int, old(self).width - 1))
                * old(self).bytes_per_pixel + 3 <= usize::MAX,
        ensures
            final(self).wf(),
            final(self).backbuffer@ == old(self).backbuffer@,
            final(self).same_mouse(*old(self)),
            final(self).width == old(self).width && final(self).height == old(self).height,
            final(self).stride == old(self).stride && final(self).bytes_per_pixel == old(self).bytes_per_pixel,
            final(self).format == old(self).format,
            old(self).nothing_dirty() ==> final(self).buffer@ == old(self).buffer@ && final(self).canvas()
                == old(self).canvas(),
            !old(self).nothing_dirty() ==> final(self).clean() && final(self).buffer@ == blit_rows(
                old(self).buffer@,
                old(self).backbuffer@,
                old(self).width as int,
                old(self).stride as int,
                old(self).bytes_per_pixel as int,
                old(self).format,
                min_of(old(self).dirty_x1 as int, old(self).width - 1),
                min_of(old(self).dirty_x2 as int, old(self).width - 1),
                min_of(old(self).dirty_y1 as int, old(self).height - 1),
                min_of(old(self).dirty_y2 as int, old(self).height - 1) + 1,
            ),
    {
        if self.dirty_x1 > self.dirty_x2 || self.dirty_y1 > self.dirty_y2 {
            return;
        }
        let x1 = if self.dirty_x1 < self.width - 1 {
            self.dirty_x1
        } else {
            self.width - 1
        };
        let y1 = if self.dirty_y1 < self.height - 1 {
            self.dirty_y1
        } else {
            self.height - 1
        };
        let x2 = if self.dirty_x2 < self.width - 1 {
            self.dirty_x2
        } else {
            self.width - 1
        };
        let y2 = if self.dirty_y2 < self.height - 1 {
            self.dirty_y2
        } else {
            self.height - 1
        };
        let ghost w = self.width as int;
        let ghost h = self.height as int;
        let ghost stride = self.stride as int;
        let ghost bpp = self.bytes_per_pixel as int;
        let ghost fmt = self.format;
        let ghost bb = self.backbuffer@;
        let ghost buf0 = self.buffer@;
        let mut y = y1;
        while y <= y2
            invariant
                self.wf(),
                self.backbuffer@ == bb,
                self.same_mouse(*old(self)),
                self.width == w && self.height == h && self.stride == stride && self.bytes_per_pixel == bpp,
                self.format == fmt,
                self.dirty_x1 == old(self).dirty_x1 && self.dirty_y1 == old(self).dirty_y1,
                self.dirty_x2 == old(self).dirty_x2 && self.dirty_y2 == old(self).dirty_y2,
                self.buffer@.len() == buf0.len(),
                x1 <= x2 < w,
                y1 <= y2 < h,
                y1 <= y <= y2 + 1,
                y2 * stride + x2 <= usize::MAX,
                (y2 * stride + x2) * bpp + 3 <= usize::MAX,
                self.buffer@ == blit_rows(buf0, bb, w, stride, bpp, fmt, x1 as int, x2 as int, y1 as int, y as int),
            decreases y2 + 1 - y,
        {
            assert(y * stride <= y2 * stride) by (nonlinear_arith)
                requires
                    y <= y2,
                    0 <= stride,
            ;
            let stride_offset = y * self.stride;
            proof {
                lemma_pixel_in(w, h, 0, y as int);
            }
            let width_offset = y * self.width;
            let ghost row_start = self.buffer@;
            let mut x = x1;
            while x <= x2
                invariant
                    self.wf(),
                    self.backbuffer@ == bb,
                    self.same_mouse(*old(self)),
                    self.width == w && self.height == h && self.stride == stride && self.bytes_per_pixel == bpp,
                    self.format == fmt,
                    self.dirty_x1 == old(self).dirty_x1 && self.dirty_y1 == old(self).dirty_y1,
                    self.dirty_x2 == old(self).dirty_x2 && self.dirty_y2 == old(self).dirty_y2,
                    self.buffer@.len() == buf0.len(),
                    x1 <= x2 < w,
                    y1 <= y <= y2,
                    y2 < h,
                    x1 <= x <= x2 + 1,
                    stride_offset == y * stride,
                    width_offset == y * w,
                    y2 * stride + x2 <= usize::MAX,
                    (y2 * stride + x2) * bpp + 3 <= usize::MAX,
                    y * stride <= y2 * stride,
                    row_start == blit_rows(buf0, bb, w, stride, bpp, fmt, x1 as int, x2 as int, y1 as int, y as int),
                    self.buffer@ == blit_row(row_start, bb, w, stride, bpp, fmt, y as int, x1 as int, x as int),
                decreases x2 + 1 - x,
            {
                proof {
                    lemma_pixel_in(w, h, x as int, y as int);
                    assert((stride_offset + x) * bpp + 3 <= (y2 * stride + x2) * bpp + 3) by (nonlinear_arith)
                        requires
                            stride_offset + x <= y2 * stride + x2,
                            0 <= bpp,
                    ;
                }
                let color = self.backbuffer[width_offset + x];
                let pixel_offset = (stride_offset + x) * self.bytes_per_pixel;
                if pixel_offset + 3 <= self.buffer.len() {
                    match self.format {
                        PixelFormat::Bgr => {
                            self.buffer.set(pixel_offset, color.b);
                            self.buffer.set(pixel_offset + 1, color.g);
                            self.buffer.set(pixel_offset + 2, color.r);
                        },
                        PixelFormat::Rgb => {
                            self.buffer.set(pixel_offset, color.r);
                            self.buffer.set(pixel_offset + 1, color.g);
                            self.buffer.set(pixel_offset + 2, color.b);
                        },
                        PixelFormat::U8 => {
                            self.buffer.set(pixel_offset, color.r);
                        },
                        PixelFormat::Unknown => {},
                    }
                }
                x = x + 1;
            }
            y = y + 1;
        }
        self.reset_dirty();
    }
}

/// The writes of the top and bottom rows of the frame `width` by `height`
/// at `(x, y)`, for its first `n` columns, column by column.
pub open spec fn hborder_writes(x: int, y: int, height: int, n: nat, c: Color) -> Seq<PixelWrite>
    decreases n,
{
    if n == 0 {
        Seq::empty()
    } else {
        hborder_writes(x, y, height, (n - 1) as nat, c) + seq![(x + n - 1, y, c), (x + n - 1, y + height - 1, c)]
    }
}

/// The writes of the left and right columns of the frame `width` by
/// `height` at `(x, y)`, for its first `n` rows, row by row.
pub open spec fn vborder_writes(x: int, y: int, width: int, n: nat, c: Color) -> Seq<PixelWrite>
    decreases n,
{
    if n == 0 {
        Seq::empty()
    } else {
        vborder_writes(x, y, width, (n - 1) as nat, c) + seq![(x, y + n - 1, c), (x + width - 1, y + n - 1, c)]
    }
}

/// The writes of the one-pixel frame of the box `width` by `height` at
/// `(x, y)`: its top and bottom rows, then its left and right columns.
pub open spec fn frame_writes(x: int, y: int, width: nat, height: nat, c: Color) -> Seq<PixelWrite> {
    hborder_writes(x, y, height as int, width, c) + vborder_writes(x, y, width as int, height, c)
}

/// The writes of a bordered box: its inside in `bg`, then its frame in
/// `border`.
pub open spec fn border_box_writes(x: int, y: int, width: nat, height: nat, border: Color, bg: Color) -> Seq<
    PixelWrite,
> {
    rect_writes(x + 1, y + 1, (width - 2) as nat, (height - 2) as nat, bg) + frame_writes(x, y, width, height, border)
}

/// Bit `col` (from the left) of row `row` of the 8 by 8 glyph of `ch`,
/// taken by its code modulo 128.
pub open spec fn font_bit(ch: char, row: int, col: int) -> bool {
    let g = glyph(((ch as u32) & 0x7F) as int);
    ((g[row] >> ((7 - col) as u8)) & 1u8) == 1u8
}

/// The writes of one glyph cell at `(px, py)`: a pixel at scale 1, else a
/// `scale` by `scale` square.
pub open spec fn cell_writes(px: int, py: int, scale: int, c: Color) -> Seq<PixelWrite> {
    if scale == 1 {
        seq![(px, py, c)]
    } else {
        rect_writes(px, py, scale as nat, scale as nat, c)
    }
}

/// The writes of the first `n` cells (row by row) of the glyph of `ch` at
/// `(x, y)`: set bits in `color`, clear bits in `bg` when there is one.
pub open spec fn char_writes(
    x: int,
    y: int,
    ch: char,
    color: Color,
    bg: Option<Color>,
    scale: int,
    n: nat,
) -> Seq<PixelWrite>
    decreases n,
{
    if n == 0 {
        Seq::empty()
    } else {
        let k = n - 1;
        let row = k / 8;
        let col = k % 8;
        char_writes(x, y, ch, color, bg, scale, k as nat) + if font_bit(ch, row, col) {
            cell_writes(x + col * scale, y + row * scale, scale, color)
        } else {
            match bg {
                Some(b) => cell_writes(x + col * scale, y + row * scale, scale, b),
                None => Seq::empty(),
            }
        }
    }
}

/// Whether cell `(row, col)` of the glyph of `ch` is drawn: its bit is set,
/// or there is a background colour.
pub open spec fn cell_drawn(ch: char, bg: Option<Color>, row: int, col: int) -> bool {
    font_bit(ch, row, col) || bg is Some
}

/// Every drawn cell of the glyph of `ch` at `(x, y)` ends within the
/// range of `usize`.
pub open spec fn char_fits(x: int, y: int, ch: char, bg: Option<Color>, scale: int) -> bool {
    forall|row: int, col: int|
        0 <= row < 8 && 0 <= col < 8 && #[trigger] cell_drawn(ch, bg, row, col) ==> x + col * scale + scale
            <= usize::MAX + 1 && y + row * scale + scale <= usize::MAX + 1
}

/// A glyph fits when its whole `8 * scale` box does.
pub proof fn lemma_char_fits(x: int, y: int, ch: char, bg: Option<Color>, scale: int)
    requires
        0 <= x,
        0 <= y,
        0 <= scale,
        x + 8 * scale <= usize::MAX + 1,
        y + 8 * scale <= usize::MAX + 1,
    ensures
        char_fits(x, y, ch, bg, scale),
{
    assert forall|row: int, col: int| 0 <= row < 8 && 0 <= col < 8 && #[trigger] cell_drawn(ch, bg, row, col) implies
        (x + col * scale + scale <= usize::MAX + 1 && y + row * scale + scale <= usize::MAX + 1) by {
        lemma_cell_end(row, scale);
        lemma_cell_end(col, scale);
    }
}

/// A cell of a glyph ends within its `8 * scale` box.
proof fn lemma_cell_end(k: int, scale: int)
    requires
        0 <= k < 8,
        0 <= scale,
    ensures
        k * scale + scale <= 8 * scale,
{
    assert(k * scale + scale <= 8 * scale) by (nonlinear_arith)
        requires
            0 <= k < 8,
            0 <= scale,
    ;
}

/// The writes of `s` drawn from `(x, y)` on a canvas `w` wide: glyph after
/// glyph, `9 * scale` apart, stopping before the first glyph whose right
/// edge would reach the canvas edge.
pub open spec fn string_writes(
    x: int,
    y: int,
    s: Seq<char>,
    w: int,
    color: Color,
    bg: Option<Color>,
    scale: int,
) -> Seq<PixelWrite>
    decreases s.len(),
{
    if s.len() == 0 || x + 8 * scale >= w {
        Seq::empty()
    } else {
        char_writes(x, y, s[0], color, bg, scale, 64) + string_writes(
            x + 9 * scale,
            y,
            s.drop_first(),
            w,
            color,
            bg,
            scale,
        )
    }
}

/// Drawing `s` from `(x, y)` on a canvas `w` wide stays within the range of
/// `usize`: each column reached and each glyph drawn fits.
pub open spec fn string_fits(x: int, y: int, s: Seq<char>, w: int, bg: Option<Color>, scale: int) -> bool
    decreases s.len(),
{
    s.len() == 0 || (x + 8 * scale <= usize::MAX && (x + 8 * scale >= w || (char_fits(x, y, s[0], bg, scale)
        && x + 9 * scale <= usize::MAX && string_fits(x + 9 * scale, y, s.drop_first(), w, bg, scale))))
}

impl UefiGraphics {
    /// Draws a box `width` by `height` at `(x, y)`: its inside in `bg`,
    /// then its one-pixel frame in `border`.
    pub fn draw_border_rect(&mut self, x: usize, y: usize, width: usize, height: usize, border_color: Color, bg_color: Color)
        requires
            old(self).wf(),
            width >= 2 && height >= 2,
            x + width <= usize::MAX,
            y + height <= usize::MAX,
        ensures
            final(self).wf(),
            final(self).canvas() == write_all(
                old(self).canvas(),
                old(self).width as int,
                old(self).height as int,
                border_box_writes(x as int, y as int, width as nat, height as nat, border_color, bg_color),
            ),
            final(self).same_device(*old(self)),
            final(self).same_mouse(*old(self)),
    {
        let ghost cv0 = self.canvas();
        let ghost w = self.width as int;
        let ghost h = self.height as int;
        self.draw_rect(x + 1, y + 1, width - 2, height - 2, bg_color);
        let ghost inner = rect_writes(x + 1, y + 1, (width - 2) as nat, (height - 2) as nat, bg_color);
        self.draw_border_lines(x, y, width, height, border_color);
        proof {
            let lines = frame_writes(x as int, y as int, width as nat, height as nat, border_color);
            lemma_write_all_append(cv0, w, h, inner, lines);
            assert(inner + lines =~= border_box_writes(
                x as int,
                y as int,
                width as nat,
                height as nat,
                border_color,
                bg_color,
            ));
        }
    }

    /// Draws the one-pixel frame of the box `bw` by `bh` at `(bx, by)`:
    /// its top and bottom rows column by column, then its left and right
    /// columns row by row.
    pub(crate) fn draw_border_lines(&mut self, bx: usize, by: usize, bw: usize, bh: usize, color: Color)
        requires
            old(self).wf(),
            bw >= 1 && bh >= 1,
            bx + bw <= usize::MAX,
            by + bh <= usize::MAX,
        ensures
            final(self).wf(),
            final(self).canvas() == write_all(
                old(self).canvas(),
                old(self).width as int,
                old(self).height as int,
                frame_writes(bx as int, by as int, bw as nat, bh as nat, color),
            ),
            final(self).same_device(*old(self)),
            final(self).same_mouse(*old(self)),
    {
        let ghost cv0 = self.canvas();
        let ghost w = self.width as int;
        let ghost h = self.height as int;
        let mut col: usize = 0;
        while col < bw
            invariant
                self.wf(),
                self.same_device(*old(self)),
                self.same_mouse(*old(self)),
                w == self.width && h == self.height,
                col <= bw,
                bw >= 1 && bh >= 1,
                bx + bw <= usize::MAX,
                by + bh <= usize::MAX,
                self.canvas() == write_all(cv0, w, h, hborder_writes(bx as int, by as int, bh as int, col as nat, color)),
            decreases bw - col,
        {
            let ghost before = hborder_writes(bx as int, by as int, bh as int, col as nat, color);
            self.write_pixel(bx + col, by, color);
            proof {
                assert((before.push((bx + col, by as int, color))).drop_last() =~= before);
            }
            self.write_pixel(bx + col, by + bh - 1, color);
            proof {
                let b1 = before.push((bx + col, by as int, color));
                assert(b1.push((bx + col, by + bh - 1, color)).drop_last() =~= b1);
                let after = hborder_writes(bx as int, by as int, bh as int, (col + 1) as nat, color);
                assert(after =~= b1.push((bx + col, by + bh - 1, color)));
                assert(write_all(cv0, w, h, b1) == write_spec(write_all(cv0, w, h, before), w, h, bx + col, by as int, color));
                assert(write_all(cv0, w, h, after) == write_spec(write_all(cv0, w, h, b1), w, h, bx + col, by + bh - 1, color));
            }
            col = col + 1;
        }
        let ghost top = hborder_writes(bx as int, by as int, bh as int, bw as nat, color);
        let mut row: usize = 0;
        proof {
            assert(top + vborder_writes(bx as int, by as int, bw as int, 0, color) =~= top);
        }
        while row < bh
            invariant
                self.wf(),
                self.same_device(*old(self)),
                self.same_mouse(*old(self)),
                w == self.width && h == self.height,
                row <= bh,
                bw >= 1 && bh >= 1,
                bx + bw <= usize::MAX,
                by + bh <= usize::MAX,
                self.canvas() == write_all(cv0, w, h, top + vborder_writes(bx as int, by as int, bw as int, row as nat, color)),
            decreases bh - row,
        {
            let ghost before = top + vborder_writes(bx as int, by as int, bw as int, row as nat, color);
            self.write_pixel(bx, by + row, color);
            proof {
                assert((before.push((bx as int, by + row, color))).drop_last() =~= before);
            }
            self.write_pixel(bx + bw - 1, by + row, color);
            proof {
                let b1 = before.push((bx as int, by + row, color));
                assert(b1.push((bx + bw - 1, by + row, color)).drop_last() =~= b1);
                let after = top + vborder_writes(bx as int, by as int, bw as int, (row + 1) as nat, color);
                assert(after =~= b1.push((bx + bw - 1, by + row, color)));
                assert(write_all(cv0, w, h, b1) == write_spec(write_all(cv0, w, h, before), w, h, bx as int, by + row, color));
                assert(write_all(cv0, w, h, after) == write_spec(write_all(cv0, w, h, b1), w, h, bx + bw - 1, by + row, color));
            }
            row = row + 1;
        }
    }
}

/// A string fits when the column after its last glyph does, whatever the
/// canvas width.
pub proof fn lemma_string_fits(x: int, y: int, s: Seq<char>, w: int, bg: Option<Color>, scale: int)
    requires
        0 <= x,
        0 <= y,
        0 <= scale,
        x + 9 * scale * s.len() <= usize::MAX,
        y + 8 * scale <= usize::MAX + 1,
    ensures
        string_fits(x, y, s, w, bg, scale),
    decreases s.len(),
{
    if s.len() > 0 {
        let n = s.len() - 1;
        assert(9 * scale * s.len() == 9 * scale + 9 * scale * n && 9 * scale * n >= 0) by (nonlinear_arith)
            requires
                n == s.len() - 1,
                n >= 0,
                scale >= 0,
        ;
        lemma_char_fits(x, y, s[0], bg, scale);
        lemma_string_fits(x + 9 * scale, y, s.drop_first(), w, bg, scale);
    }
}

impl UefiGraphics {
    /// Fills one glyph cell; see `cell_writes`.
    fn fill_cell(&mut self, px: usize, py: usize, scale: usize, c: Color)
        requires
            old(self).wf(),
            px + scale <= usize::MAX + 1,
            py + scale <= usize::MAX + 1,
        ensures
            final(self).wf(),
            final(self).canvas() == write_all(
                old(self).canvas(),
                old(self).width as int,
                old(self).height as int,
                cell_writes(px as int, py as int, scale as int, c),
            ),
            final(self).same_device(*old(self)),
            final(self).same_mouse(*old(self)),
    {
        if scale == 1 {
            self.write_pixel(px, py, c);
            proof {
                let ws = seq![(px as int, py as int, c)];
                let cv = old(self).canvas();
                let w = old(self).width as int;
                let h = old(self).height as int;
                assert(ws.drop_last() =~= Seq::<PixelWrite>::empty());
                assert(write_all(cv, w, h, ws) == write_spec(write_all(cv, w, h, ws.drop_last()), w, h, px as int, py as int, c));
            }
        } else {
            self.draw_rect(px, py, scale, scale, c);
        }
    }

    /// Draws the 8 by 8 glyph of `c` (its code taken modulo 128) at
    /// `(x, y)`, each bit a `scale` by `scale` square: set bits in `color`,
    /// clear bits in `bg` when it is given and left alone otherwise.
    pub fn draw_char(&mut self, x: usize, y: usize, c: char, color: Color, bg: Option<Color>, scale: usize)
        requires
            old(self).wf(),
            char_fits(x as int, y as int, c, bg, scale as int),
        ensures
            final(self).wf(),
            final(self).canvas() == write_all(
                old(self).canvas(),
                old(self).width as int,
                old(self).height as int,
                char_writes(x as int, y as int, c, color, bg, scale as int, 64),
            ),
            final(self).same_device(*old(self)),
            final(self).same_mouse(*old(self)),
    {
        let ghost cv0 = self.canvas();
        let ghost w = self.width as int;
        let ghost h = self.height as int;
        let cu: u32 = c as u32;
        let code: u32 = cu & 0x7F;
        assert(code <= 0x7F) by (bit_vector)
            requires
                code == cu & 0x7F,
        ;
        let row_data = font_glyph(code as usize);
        let mut row: usize = 0;
        while row < 8
            invariant
                self.wf(),
                self.same_device(*old(self)),
                self.same_mouse(*old(self)),
                w == self.width && h == self.height,
                row <= 8,
                code as int == ((c as u32) & 0x7F) as int,
                row_data@ == glyph(code as int),
                char_fits(x as int, y as int, c, bg, scale as int),
                self.canvas() == write_all(cv0, w, h, char_writes(x as int, y as int, c, color, bg, scale as int, (row * 8) as nat)),
            decreases 8 - row,
        {
            let byte = row_data[row];
            let mut col: usize = 0;
            while col < 8
                invariant
                    self.wf(),
                    self.same_device(*old(self)),
                    self.same_mouse(*old(self)),
                    w == self.width && h == self.height,
                    row < 8,
                    col <= 8,
                    code as int == ((c as u32) & 0x7F) as int,
                    byte == glyph(code as int)[row as int],
                    char_fits(x as int, y as int, c, bg, scale as int),
                    self.canvas() == write_all(
                        cv0,
                        w,
                        h,
                        char_writes(x as int, y as int, c, color, bg, scale as int, (row * 8 + col) as nat),
                    ),
                decreases 8 - col,
            {
                let bit = (byte >> ((7 - col) as u8)) & 1u8;
                let ghost k = row * 8 + col;
                let ghost before = char_writes(x as int, y as int, c, color, bg, scale as int, k as nat);
                proof {
                    assert(k / 8 == row as int && k % 8 == col as int) by (nonlinear_arith)
                        requires
                            k == row * 8 + col,
                            col < 8,
                    ;
                    assert(font_bit(c, row as int, col as int) == (bit == 1u8));
                    if bit == 1u8 || bg is Some {
                        assert(cell_drawn(c, bg, row as int, col as int));
                    }
                    assert(0 <= col * scale <= 7 * scale) by (nonlinear_arith)
                        requires
                            col < 8,
                    ;
                    assert(0 <= row * scale <= 7 * scale) by (nonlinear_arith)
                        requires
                            row < 8,
                    ;
                    if scale == 1 {
                        assert(col * scale == col && row * scale == row) by (nonlinear_arith)
                            requires
                                scale == 1,
                        ;
                    }
                    let px = x + col * scale;
                    let py = y + row * scale;
                    let cw = if font_bit(c, row as int, col as int) {
                        cell_writes(px, py, scale as int, color)
                    } else {
                        match bg {
                            Some(b) => cell_writes(px, py, scale as int, b),
                            None => Seq::empty(),
                        }
                    };
                    assert(char_writes(x as int, y as int, c, color, bg, scale as int, (k + 1) as nat) == before + cw);
                }
                if bit == 1 {
                    if scale == 1 {
                        self.fill_cell(x + col, y + row, scale, color);
                    } else {
                        self.fill_cell(x + col * scale, y + row * scale, scale, color);
                    }
                    proof {
                        lemma_write_all_append(cv0, w, h, before, cell_writes(x + col * scale, y + row * scale, scale as int, color));
                    }
                } else {
                    match bg {
                        Some(bg_color) => {
                            if scale == 1 {
                                self.fill_cell(x + col, y + row, scale, bg_color);
                            } else {
                                self.fill_cell(x + col * scale, y + row * scale, scale, bg_color);
                            }
                            proof {
                                lemma_write_all_append(
                                    cv0,
                                    w,
                                    h,
                                    before,
                                    cell_writes(x + col * scale, y + row * scale, scale as int, bg_color),
                                );
                            }
                        },
                        None => {
                            assert(before + Seq::<PixelWrite>::empty() =~= before);
                        },
                    }
                }
                col = col + 1;
            }
            row = row + 1;
        }
    }

    /// Draws `text` from `(x, y)`, glyph after glyph `9 * scale` apart,
    /// stopping before the first glyph whose right edge would reach the
    /// screen edge.
    pub fn draw_string(&mut self, x: usize, y: usize, text: &str, color: Color, bg: Option<Color>, scale: usize)
        requires
            old(self).wf(),
            8 * scale <= usize::MAX,
            string_fits(x as int, y as int, text@, old(self).width as int, bg, scale as int),
        ensures
            final(self).wf(),
            final(self).canvas() == write_all(
                old(self).canvas(),
                old(self).width as int,
                old(self).height as int,
                string_writes(x as int, y as int, text@, old(self).width as int, color, bg, scale as int),
            ),
            final(self).same_device(*old(self)),
            final(self).same_mouse(*old(self)),
    {
        let ghost cv0 = self.canvas();
        let ghost w = self.width as int;
        let ghost h = self.height as int;
        let ghost all = string_writes(x as int, y as int, text@, w, color, bg, scale as int);
        let char_w = 8 * scale;
        let n = text.unicode_len();
        let mut i: usize = 0;
        let mut cx: usize = x;
        let ghost mut done: Seq<PixelWrite> = Seq::empty();
        proof {
            assert(text@.skip(0) =~= text@);
            assert(done + all =~= all);
        }
        loop
            invariant_except_break
                i <= n,
                n == text@.len(),
                char_w == 8 * scale,
                self.wf(),
                self.same_device(*old(self)),
                self.same_mouse(*old(self)),
                w == self.width && h == self.height,
                string_fits(cx as int, y as int, text@.skip(i as int), w, bg, scale as int),
                self.canvas() == write_all(cv0, w, h, done),
                all == done + string_writes(cx as int, y as int, text@.skip(i as int), w, color, bg, scale as int),
            ensures
                self.wf(),
                self.same_device(*old(self)),
                self.same_mouse(*old(self)),
                self.canvas() == write_all(cv0, w, h, all),
            decreases n - i,
        {
            if i >= n {
                proof {
                    assert(text@.skip(i as int).len() == 0);
                    assert(done + Seq::<PixelWrite>::empty() =~= done);
                }
                break;
            }
            let ch = text.get_char(i);
            let ghost rest = text@.skip(i as int);
            assert(rest[0] == ch);
            assert(rest.drop_first() =~= text@.skip(i + 1));
            if cx + char_w >= self.width {
                assert(done + Seq::<PixelWrite>::empty() =~= done);
                break;
            }
            self.draw_char(cx, y, ch, color, bg, scale);
            proof {
                let cw = char_writes(cx as int, y as int, ch, color, bg, scale as int, 64);
                lemma_write_all_append(cv0, w, h, done, cw);
                assert(done + string_writes(cx as int, y as int, rest, w, color, bg, scale as int) =~= (done + cw)
                    + string_writes(cx + 9 * scale, y as int, rest.drop_first(), w, color, bg, scale as int));
                done = done + cw;
            }
            cx = cx + char_w + scale;
            i = i + 1;
        }
    }
}

/// The writes of column `x` from row `y`, `n` pixels down.
pub open spec fn column_writes(x: int, y: int, n: nat, c: Color) -> Seq<PixelWrite>
    decreases n,
{
    if n == 0 {
        Seq::empty()
    } else {
        column_writes(x, y, (n - 1) as nat, c).push((x, y + n - 1, c))
    }
}

/// The writes of the first `n` columns of a band `height` tall at
/// `(x, y)`, column `k` in `colors[k]`, left to right.
pub open spec fn columns_writes(x: int, y: int, height: nat, colors: Seq<Color>, n: nat) -> Seq<PixelWrite>
    decreases n,
{
    if n == 0 {
        Seq::empty()
    } else {
        columns_writes(x, y, height, colors, (n - 1) as nat) + column_writes(x + n - 1, y, height, colors[n - 1])
    }
}

impl UefiGraphics {
    /// Paints a band `height` tall at `(x, y)`, one column per colour of
    /// `colors`, left to right; pixels off the canvas are skipped. This is
    /// how a horizontal gradient, its colours worked out per column, is
    /// drawn.
    pub fn draw_color_columns(&mut self, x: usize, y: usize, height: usize, colors: &Vec<Color>)
        requires
            old(self).wf(),
            colors@.len() > 0 && height > 0 ==> x + colors@.len() - 1 <= usize::MAX && y + height - 1 <= usize::MAX,
        ensures
            final(self).wf(),
            final(self).canvas() == write_all(
                old(self).canvas(),
                old(self).width as int,
                old(self).height as int,
                columns_writes(x as int, y as int, height as nat, colors@, colors@.len()),
            ),
            final(self).same_device(*old(self)),
            final(self).same_mouse(*old(self)),
    {
        let ghost cv0 = self.canvas();
        let ghost w = self.width as int;
        let ghost h = self.height as int;
        let width = colors.len();
        let mut col: usize = 0;
        while col < width
            invariant
                self.wf(),
                self.same_device(*old(self)),
                self.same_mouse(*old(self)),
                w == self.width && h == self.height,
                width == colors@.len(),
                col <= width,
                width > 0 && height > 0 ==> x + width - 1 <= usize::MAX && y + height - 1 <= usize::MAX,
                self.canvas() == write_all(cv0, w, h, columns_writes(x as int, y as int, height as nat, colors@, col as nat)),
            decreases width - col,
        {
            let color = colors[col];
            let ghost before = columns_writes(x as int, y as int, height as nat, colors@, col as nat);
            let mut row: usize = 0;
            proof {
                assert(before + column_writes(x + col, y as int, 0, color) =~= before);
            }
            while row < height
                invariant
                    self.wf(),
                    self.same_device(*old(self)),
                    self.same_mouse(*old(self)),
                    w == self.width && h == self.height,
                    width == colors@.len(),
                    col < width,
                    row <= height,
                    color == colors@[col as int],
                    width > 0 && height > 0 ==> x + width - 1 <= usize::MAX && y + height - 1 <= usize::MAX,
                    before == columns_writes(x as int, y as int, height as nat, colors@, col as nat),
                    self.canvas() == write_all(cv0, w, h, before + column_writes(x + col, y as int, row as nat, color)),
                decreases height - row,
            {
                self.write_pixel(x + col, y + row, color);
                proof {
                    let c1 = column_writes(x + col, y as int, (row + 1) as nat, color);
                    assert((before + c1).drop_last() =~= before + column_writes(x + col, y as int, row as nat, color));
                    assert((before + c1).last() == (x + col, y + row, color));
                }
                row = row + 1;
            }
            col = col + 1;
        }
    }
}

/// A text cursor that writes straight onto the display, for messages when
/// nothing else can run: where the next glyph goes, the column lines start
/// at, and the text colour.
pub struct GraphicsWriter {
    /// Column of the next glyph.
    pub x: usize,
    /// Row of the next glyph.
    pub y: usize,
    /// Column each line starts at.
    pub start_x: usize,
    /// Text colour.
    pub color: Color,
}

/// Where the glyph of `c` goes from the cursor `(x, y)` on a screen `w`
/// wide: on a new line when it would reach the edge.
pub open spec fn glyph_spot(x: int, y: int, start_x: int, w: int) -> (int, int) {
    if x + 8 >= w {
        (start_x, y + 12)
    } else {
        (x, y)
    }
}

/// The cursor after `s` from `(x, y)`: a line break moves to the start of
/// the next line, 12 pixels down; a glyph moves 9 pixels right.
pub open spec fn writer_end(x: int, y: int, start_x: int, w: int, s: Seq<char>) -> (int, int)
    decreases s.len(),
{
    if s.len() == 0 {
        (x, y)
    } else if s[0] == '\n' {
        writer_end(start_x, y + 12, start_x, w, s.drop_first())
    } else {
        let p = glyph_spot(x, y, start_x, w);
        writer_end(p.0 + 9, p.1, start_x, w, s.drop_first())
    }
}

/// The writes of `s` from the cursor `(x, y)`.
pub open spec fn writer_writes(x: int, y: int, start_x: int, w: int, color: Color, s: Seq<char>) -> Seq<PixelWrite>
    decreases s.len(),
{
    if s.len() == 0 {
        Seq::empty()
    } else if s[0] == '\n' {
        writer_writes(start_x, y + 12, start_x, w, color, s.drop_first())
    } else {
        let p = glyph_spot(x, y, start_x, w);
        char_writes(p.0, p.1, s[0], color, None, 1, 64) + writer_writes(p.0 + 9, p.1, start_x, w, color, s.drop_first())
    }
}

/// Writing `s` from the cursor `(x, y)` stays within the range of `usize`.
pub open spec fn writer_fits(x: int, y: int, start_x: int, w: int, s: Seq<char>) -> bool
    decreases s.len(),
{
    if s.len() == 0 {
        true
    } else if s[0] == '\n' {
        y + 12 <= usize::MAX && writer_fits(start_x, y + 12, start_x, w, s.drop_first())
    } else {
        let p = glyph_spot(x, y, start_x, w);
        &&& x + 8 <= usize::MAX
        &&& x + 8 >= w ==> y + 12 <= usize::MAX
        &&& char_fits(p.0, p.1, s[0], None, 1)
        &&& p.0 + 9 <= usize::MAX
        &&& writer_fits(p.0 + 9, p.1, start_x, w, s.drop_first())
    }
}

impl GraphicsWriter {
    /// Writes `s` on `graphics` at the cursor: see `writer_writes` for the
    /// pixels and `writer_end` for where the cursor ends.
    pub fn write_str(&mut self, graphics: &mut UefiGraphics, s: &str)
        requires
            old(graphics).wf(),
            writer_fits(
                old(self).x as int,
                old(self).y as int,
                old(self).start_x as int,
                old(graphics).width as int,
                s@,
            ),
        ensures
            final(graphics).wf(),
            final(graphics).canvas() == write_all(
                old(graphics).canvas(),
                old(graphics).width as int,
                old(graphics).height as int,
                writer_writes(
                    old(self).x as int,
                    old(self).y as int,
                    old(self).start_x as int,
                    old(graphics).width as int,
                    old(self).color,
                    s@,
                ),
            ),
            (final(self).x as int, final(self).y as int) == writer_end(
                old(self).x as int,
                old(self).y as int,
                old(self).start_x as int,
                old(graphics).width as int,
                s@,
            ),
            final(self).start_x == old(self).start_x,
            final(self).color == old(self).color,
            final(graphics).same_device(*old(graphics)),
            final(graphics).same_mouse(*old(graphics)),
    {
        let ghost cv0 = graphics.canvas();
        let ghost w = graphics.width as int;
        let ghost h = graphics.height as int;
        let ghost all = writer_writes(self.x as int, self.y as int, self.start_x as int, w, self.color, s@);
        let ghost end = writer_end(self.x as int, self.y as int, self.start_x as int, w, s@);
        let n = s.unicode_len();
        let mut i: usize = 0;
        let ghost mut done: Seq<PixelWrite> = Seq::empty();
        proof {
            assert(s@.skip(0) =~= s@);
            assert(done + all =~= all);
        }
        while i < n
            invariant
                i <= n,
                n == s@.len(),
                graphics.wf(),
                graphics.same_device(*old(graphics)),
                graphics.same_mouse(*old(graphics)),
                w == graphics.width && h == graphics.height,
                self.start_x == old(self).start_x,
                self.color == old(self).color,
                writer_fits(self.x as int, self.y as int, self.start_x as int, w, s@.skip(i as int)),
                graphics.canvas() == write_all(cv0, w, h, done),
                all == done + writer_writes(self.x as int, self.y as int, self.start_x as int, w, self.color, s@.skip(i as int)),
                end == writer_end(self.x as int, self.y as int, self.start_x as int, w, s@.skip(i as int)),
            decreases n - i,
        {
            let c = s.get_char(i);
            let ghost rest = s@.skip(i as int);
            let ghost x0 = self.x as int;
            let ghost y0 = self.y as int;
            assert(rest[0] == c);
            assert(rest.drop_first() =~= s@.skip(i + 1));
            if c == '\n' {
                self.x = self.start_x;
                self.y = self.y + 12;
            } else {
                if self.x + 8 >= graphics.width {
                    self.x = self.start_x;
                    self.y = self.y + 12;
                }
                assert((self.x as int, self.y as int) == glyph_spot(x0, y0, self.start_x as int, w));
                graphics.draw_char(self.x, self.y, c, self.color, None, 1);
                proof {
                    let cw = char_writes(self.x as int, self.y as int, c, self.color, None, 1, 64);
                    lemma_write_all_append(cv0, w, h, done, cw);
                    assert(done + writer_writes(x0, y0, self.start_x as int, w, self.color, rest) =~= (done + cw)
                        + writer_writes(self.x + 9, self.y as int, self.start_x as int, w, self.color, rest.drop_first()));
                    done = done + cw;
                }
                self.x = self.x + 9;
            }
            i = i + 1;
        }
        proof {
            assert(s@.skip(n as int).len() == 0);
            assert(done + Seq::<PixelWrite>::empty() =~= done);
        }
    }
}

} // verus!
