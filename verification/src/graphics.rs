//! The desktop's software renderer: a back buffer of 24-bit pixels, in
//! blue-green-red or red-green-blue byte order, with pixels, alpha
//! blending, rectangles, lines, gradients and the mouse cursor.
use vstd::prelude::*;

verus! {

/// The back buffer: `width * height` pixels of three bytes each, row by
/// row, at the start of `data`.
pub struct BackBuffer {
    /// The bytes.
    pub data: Vec<u8>,
    /// Screen width in pixels.
    pub width: i32,
    /// Screen height in pixels.
    pub height: i32,
    /// Byte order: 0 for blue-green-red, any other value for
    /// red-green-blue.
    pub format: u32,
}

/// Byte `c` (0, 1 or 2) of the colour `(r, g, b)` in `format`.
pub open spec fn channel(format: u32, c: int, r: u8, g: u8, b: u8) -> u8 {
    if format == 0 {
        if c == 0 {
            b
        } else if c == 1 {
            g
        } else {
            r
        }
    } else {
        if c == 0 {
            r
        } else if c == 1 {
            g
        } else {
            b
        }
    }
}

/// `src` laid over `dst` with opacity `alpha` out of 255.
pub open spec fn blend(dst: u8, src: u8, alpha: u8) -> u8 {
    ((src * alpha + dst * (255 - alpha)) / 255) as u8
}

/// Byte `i` belongs to pixel `(x, y)` of a screen `w` pixels wide.
pub open spec fn byte_of(i: int, w: int, x: int, y: int) -> bool {
    (i / 3) % w == x && (i / 3) / w == y
}

/// `data` with every pixel of the `w` by `h` screen whose column and row
/// satisfy `f` set to `(r, g, b)`.
pub open spec fn fill(
    data: Seq<u8>,
    w: int,
    h: int,
    format: u32,
    f: spec_fn(int, int) -> bool,
    r: u8,
    g: u8,
    b: u8,
) -> Seq<u8> {
    Seq::new(
        data.len(),
        |i: int|
            if i < w * h * 3 && f((i / 3) % w, (i / 3) / w) {
                channel(format, i % 3, r, g, b)
            } else {
                data[i]
            },
    )
}

/// `data` with every pixel of the `w` by `h` screen whose column and row
/// satisfy `f` blended toward `(r, g, b)` with opacity `alpha`.
pub open spec fn shade(
    data: Seq<u8>,
    w: int,
    h: int,
    format: u32,
    f: spec_fn(int, int) -> bool,
    r: u8,
    g: u8,
    b: u8,
    alpha: u8,
) -> Seq<u8> {
    Seq::new(
        data.len(),
        |i: int|
            if i < w * h * 3 && f((i / 3) % w, (i / 3) / w) {
                blend(data[i], channel(format, i % 3, r, g, b), alpha)
            } else {
                data[i]
            },
    )
}

/// The bytes of pixel `(x, y)` of a screen `w` pixels wide are the three
/// from `(y * w + x) * 3`.
proof fn lemma_byte_of(i: int, w: int, x: int, y: int)
    requires
        w > 0,
        0 <= x < w,
        0 <= y,
        0 <= i,
    ensures
        byte_of(i, w, x, y) <==> ((y * w + x) * 3 <= i < (y * w + x) * 3 + 3),
{
    let p = i / 3;
    assert(0 <= p);
    if p % w == x && p / w == y {
        vstd::arithmetic::div_mod::lemma_fundamental_div_mod(p, w);
        assert(w * y == y * w) by (nonlinear_arith);
        assert(p == y * w + x);
    }
    if (y * w + x) * 3 <= i < (y * w + x) * 3 + 3 {
        assert(p == y * w + x);
        vstd::arithmetic::div_mod::lemma_fundamental_div_mod_converse(p, w, y, x);
    }
}

/// Pixels of a screen `w` by `h` lie in its first `w * h * 3` bytes.
proof fn lemma_screen_bytes(i: int, w: int, h: int)
    requires
        w > 0,
        0 <= i < w * h * 3,
    ensures
        0 <= (i / 3) % w < w,
        0 <= (i / 3) / w < h,
{
    let p = i / 3;
    assert(p < w * h);
    vstd::arithmetic::div_mod::lemma_fundamental_div_mod(p, w);
    assert((p / w) < h) by (nonlinear_arith)
        requires
            p == w * (p / w) + p % w,
            0 <= p % w,
            p < w * h,
            w > 0,
    ;
}

impl BackBuffer {
    /// The screen fits the bytes, with room for its byte offsets in an
    /// `i32`.
    pub open spec fn wf(&self) -> bool {
        &&& 0 <= self.width
        &&& 0 <= self.height
        &&& self.width * self.height * 3 <= self.data@.len()
        &&& self.width * self.height * 3 <= i32::MAX
    }

    /// The screen geometry and byte order are those of `other`.
    pub open spec fn same_screen(&self, other: Self) -> bool {
        &&& self.width == other.width
        &&& self.height == other.height
        &&& self.format == other.format
        &&& self.data@.len() == other.data@.len()
    }

    /// Sets pixel `(x, y)` to `(r, g, b)`; pixels off the screen are
    /// ignored.
    pub fn draw_pixel(&mut self, x: i32, y: i32, r: u8, g: u8, b: u8)
        requires
            old(self).wf(),
        ensures
            final(self).wf(),
            final(self).same_screen(*old(self)),
            final(self).data@ == fill(
                old(self).data@,
                old(self).width as int,
                old(self).height as int,
                old(self).format,
                |a: int, c: int| a == x && c == y,
                r,
                g,
                b,
            ),
    {
        let ghost w = self.width as int;
        let ghost h = self.height as int;
        let ghost d0 = self.data@;
        let sw = self.width;
        let sh = self.height;
        if x >= 0 && x < sw && y >= 0 && y < sh {
            proof {
                assert(0 <= (y * w + x) * 3 && (y * w + x) * 3 + 3 <= w * h * 3) by (nonlinear_arith)
                    requires
                        0 <= x < w,
                        0 <= y < h,
                ;
            }
            let idx = ((y * sw + x) * 3) as usize;
            if self.format == 0 {
                self.data.set(idx, b);
                self.data.set(idx + 1, g);
                self.data.set(idx + 2, r);
            } else {
                self.data.set(idx, r);
                self.data.set(idx + 1, g);
                self.data.set(idx + 2, b);
            }
            proof {
                assert forall|i: int| 0 <= i < d0.len() implies #[trigger] self.data@[i] == fill(
                    d0,
                    w,
                    h,
                    self.format,
                    |a: int, c: int| a == x && c == y,
                    r,
                    g,
                    b,
                )[i] by {
                    lemma_byte_of(i, w, x as int, y as int);
                    if idx <= i < idx + 3 {
                        assert(i % 3 == i - idx) by (nonlinear_arith)
                            requires
                                idx <= i < idx + 3,
                                idx % 3 == 0,
                        ;
                    }
                }
                assert(self.data@ =~= fill(d0, w, h, self.format, |a: int, c: int| a == x && c == y, r, g, b));
            }
        } else {
            proof {
                assert forall|i: int| 0 <= i < d0.len() && i < w * h * 3 implies !(#[trigger] ((i / 3) % w) == x
                    && (i / 3) / w == y) by {
                    if w > 0 {
                        lemma_screen_bytes(i, w, h);
                    } else {
                        assert(w * h * 3 == 0) by (nonlinear_arith)
                            requires
                                w == 0,
                        ;
                    }
                }
                assert(self.data@ =~= fill(d0, w, h, self.format, |a: int, c: int| a == x && c == y, r, g, b));
            }
        }
    }
}

/// `src` over `dst` with opacity `alpha`.
fn blend_byte(dst: u8, src: u8, alpha: u8) -> (v: u8)
    ensures
        v == blend(dst, src, alpha),
{
    let a = alpha as u32;
    let inv = 255 - a;
    assert(src as u32 * a + dst as u32 * inv <= 255 * 255) by (nonlinear_arith)
        requires
            a + inv == 255,
            src <= 255,
            dst <= 255,
    ;
    ((src as u32 * a + dst as u32 * inv) / 255) as u8
}

/// Opacity 0 leaves a byte, opacity 255 replaces it.
proof fn lemma_blend_ends(dst: u8, src: u8)
    ensures
        blend(dst, src, 0) == dst,
        blend(dst, src, 255) == src,
{
    assert((src * 0 + dst * 255) / 255 == dst) by (nonlinear_arith);
    assert((src * 255 + dst * 0) / 255 == src) by (nonlinear_arith);
}

impl BackBuffer {
    /// Blends pixel `(x, y)` toward `(r, g, b)` with opacity `alpha`;
    /// pixels off the screen are ignored.
    pub fn draw_pixel_alpha(&mut self, x: i32, y: i32, r: u8, g: u8, b: u8, alpha: u8)
        requires
            old(self).wf(),
        ensures
            final(self).wf(),
            final(self).same_screen(*old(self)),
            final(self).data@ == shade(
                old(self).data@,
                old(self).width as int,
                old(self).height as int,
                old(self).format,
                |a: int, c: int| a == x && c == y,
                r,
                g,
                b,
                alpha,
            ),
    {
        let ghost w = self.width as int;
        let ghost h = self.height as int;
        let ghost d0 = self.data@;
        let ghost f = |a: int, c: int| a == x && c == y;
        let sw = self.width;
        let sh = self.height;
        if x >= 0 && x < sw && y >= 0 && y < sh {
            if alpha == 0 {
                proof {
                    assert forall|i: int| 0 <= i < d0.len() implies #[trigger] d0[i] == shade(d0, w, h, self.format, f, r, g, b, alpha)[i] by {
                        lemma_blend_ends(d0[i], channel(self.format, i % 3, r, g, b));
                    }
                    assert(d0 =~= shade(d0, w, h, self.format, f, r, g, b, alpha));
                }
                return;
            }
            if alpha == 255 {
                self.draw_pixel(x, y, r, g, b);
                proof {
                    assert forall|i: int| 0 <= i < d0.len() implies #[trigger] self.data@[i] == shade(d0, w, h, self.format, f, r, g, b, alpha)[i] by {
                        lemma_blend_ends(d0[i], channel(self.format, i % 3, r, g, b));
                    }
                    assert(self.data@ =~= shade(d0, w, h, self.format, f, r, g, b, alpha));
                }
                return;
            }
            proof {
                assert(0 <= (y * w + x) * 3 && (y * w + x) * 3 + 3 <= w * h * 3) by (nonlinear_arith)
                    requires
                        0 <= x < w,
                        0 <= y < h,
                ;
            }
            let idx = ((y * sw + x) * 3) as usize;
            let c0 = if self.format == 0 {
                b
            } else {
                r
            };
            let c2 = if self.format == 0 {
                r
            } else {
                b
            };
            let n0 = blend_byte(self.data[idx], c0, alpha);
            let n1 = blend_byte(self.data[idx + 1], g, alpha);
            let n2 = blend_byte(self.data[idx + 2], c2, alpha);
            self.data.set(idx, n0);
            self.data.set(idx + 1, n1);
            self.data.set(idx + 2, n2);
            proof {
                assert forall|i: int| 0 <= i < d0.len() implies #[trigger] self.data@[i] == shade(
                    d0,
                    w,
                    h,
                    self.format,
                    f,
                    r,
                    g,
                    b,
                    alpha,
                )[i] by {
                    lemma_byte_of(i, w, x as int, y as int);
                    if idx <= i < idx + 3 {
                        assert(i % 3 == i - idx) by (nonlinear_arith)
                            requires
                                idx <= i < idx + 3,
                                idx % 3 == 0,
                        ;
                    }
                }
                assert(self.data@ =~= shade(d0, w, h, self.format, f, r, g, b, alpha));
            }
        } else {
            proof {
                assert forall|i: int| 0 <= i < d0.len() && i < w * h * 3 implies !(#[trigger] ((i / 3) % w) == x
                    && (i / 3) / w == y) by {
                    if w > 0 {
                        lemma_screen_bytes(i, w, h);
                    } else {
                        assert(w * h * 3 == 0) by (nonlinear_arith)
                            requires
                                w == 0,
                        ;
                    }
                }
                assert(self.data@ =~= shade(d0, w, h, self.format, f, r, g, b, alpha));
            }
        }
    }
}

/// Filling twice with one colour fills the union.
proof fn lemma_fill_union(
    data: Seq<u8>,
    w: int,
    h: int,
    format: u32,
    f: spec_fn(int, int) -> bool,
    g: spec_fn(int, int) -> bool,
    u: spec_fn(int, int) -> bool,
    r: u8,
    gr: u8,
    b: u8,
)
    requires
        forall|a: int, c: int| #[trigger] u(a, c) == (f(a, c) || g(a, c)),
    ensures
        fill(fill(data, w, h, format, f, r, gr, b), w, h, format, g, r, gr, b) == fill(data, w, h, format, u, r, gr, b),
{
    assert(fill(fill(data, w, h, format, f, r, gr, b), w, h, format, g, r, gr, b) =~= fill(data, w, h, format, u, r, gr, b));
}

/// Shading a region and then a pixel outside it shades both once.
proof fn lemma_shade_union(
    data: Seq<u8>,
    w: int,
    h: int,
    format: u32,
    f: spec_fn(int, int) -> bool,
    x: int,
    y: int,
    u: spec_fn(int, int) -> bool,
    r: u8,
    g: u8,
    b: u8,
    alpha: u8,
)
    requires
        !f(x, y),
        forall|a: int, c: int| #[trigger] u(a, c) == (f(a, c) || (a == x && c == y)),
    ensures
        shade(shade(data, w, h, format, f, r, g, b, alpha), w, h, format, |a: int, c: int| a == x && c == y, r, g, b, alpha)
            == shade(data, w, h, format, u, r, g, b, alpha),
{
    assert(shade(shade(data, w, h, format, f, r, g, b, alpha), w, h, format, |a: int, c: int| a == x && c == y, r, g, b, alpha)
        =~= shade(data, w, h, format, u, r, g, b, alpha));
}

/// Regions that agree on the screen fill alike.
proof fn lemma_fill_screen(
    data: Seq<u8>,
    w: int,
    h: int,
    format: u32,
    f: spec_fn(int, int) -> bool,
    g: spec_fn(int, int) -> bool,
    r: u8,
    gr: u8,
    b: u8,
)
    requires
        w >= 0,
        forall|a: int, c: int| 0 <= a < w && 0 <= c < h ==> #[trigger] f(a, c) == g(a, c),
    ensures
        fill(data, w, h, format, f, r, gr, b) == fill(data, w, h, format, g, r, gr, b),
{
    assert forall|i: int| 0 <= i < data.len() implies #[trigger] fill(data, w, h, format, f, r, gr, b)[i] == fill(
        data,
        w,
        h,
        format,
        g,
        r,
        gr,
        b,
    )[i] by {
        if 0 <= i < w * h * 3 {
            if w > 0 {
                lemma_screen_bytes(i, w, h);
            } else {
                assert(w * h * 3 == 0) by (nonlinear_arith)
                    requires
                        w == 0,
                ;
            }
        }
    }
    assert(fill(data, w, h, format, f, r, gr, b) =~= fill(data, w, h, format, g, r, gr, b));
}

/// Regions that agree on the screen shade alike.
proof fn lemma_shade_screen(
    data: Seq<u8>,
    w: int,
    h: int,
    format: u32,
    f: spec_fn(int, int) -> bool,
    g: spec_fn(int, int) -> bool,
    r: u8,
    gr: u8,
    b: u8,
    alpha: u8,
)
    requires
        w >= 0,
        forall|a: int, c: int| 0 <= a < w && 0 <= c < h ==> #[trigger] f(a, c) == g(a, c),
    ensures
        shade(data, w, h, format, f, r, gr, b, alpha) == shade(data, w, h, format, g, r, gr, b, alpha),
{
    assert forall|i: int| 0 <= i < data.len() implies #[trigger] shade(data, w, h, format, f, r, gr, b, alpha)[i]
        == shade(data, w, h, format, g, r, gr, b, alpha)[i] by {
        if 0 <= i < w * h * 3 {
            if w > 0 {
                lemma_screen_bytes(i, w, h);
            } else {
                assert(w * h * 3 == 0) by (nonlinear_arith)
                    requires
                        w == 0,
                ;
            }
        }
    }
    assert(shade(data, w, h, format, f, r, gr, b, alpha) =~= shade(data, w, h, format, g, r, gr, b, alpha));
}

/// The pixels of the rectangle `rw` by `rh` at `(x, y)`.
pub open spec fn in_rect(x: int, y: int, rw: int, rh: int, a: int, c: int) -> bool {
    x <= a < x + rw && y <= c < y + rh
}

impl BackBuffer {
    /// Fills the rectangle `w` by `h` at `(x, y)`, clipped to the screen.
    pub fn draw_rect(&mut self, x: i32, y: i32, w: i32, h: i32, r: u8, g: u8, b: u8)
        requires
            old(self).wf(),
            w > 0 && h > 0 ==> x + w <= i32::MAX && y + h <= i32::MAX,
        ensures
            final(self).wf(),
            final(self).same_screen(*old(self)),
            final(self).data@ == fill(
                old(self).data@,
                old(self).width as int,
                old(self).height as int,
                old(self).format,
                |a: int, c: int| in_rect(x as int, y as int, w as int, h as int, a, c),
                r,
                g,
                b,
            ),
    {
        let ghost sw0 = self.width as int;
        let ghost sh0 = self.height as int;
        let ghost fmt = self.format;
        let ghost d0 = self.data@;
        let ghost target = |a: int, c: int| in_rect(x as int, y as int, w as int, h as int, a, c);
        if w <= 0 || h <= 0 {
            proof {
                lemma_fill_screen(d0, sw0, sh0, fmt, target, |a: int, c: int| false, r, g, b);
                assert(d0 =~= fill(d0, sw0, sh0, fmt, |a: int, c: int| false, r, g, b));
            }
            return;
        }
        let sw = self.width;
        let sh = self.height;
        let start_y = if y > 0 {
            y
        } else {
            0
        };
        let end_y = if sh < y + h {
            sh
        } else {
            y + h
        };
        let start_x = if x > 0 {
            x
        } else {
            0
        };
        let end_x = if sw < x + w {
            sw
        } else {
            x + w
        };
        let ghost clipped = |a: int, c: int| start_x <= a < end_x && start_y <= c < end_y;
        proof {
            lemma_fill_screen(d0, sw0, sh0, fmt, target, clipped, r, g, b);
        }
        if start_x >= end_x || start_y >= end_y {
            proof {
                lemma_fill_screen(d0, sw0, sh0, fmt, clipped, |a: int, c: int| false, r, g, b);
                assert(d0 =~= fill(d0, sw0, sh0, fmt, |a: int, c: int| false, r, g, b));
            }
            return;
        }
        let mut cy = start_y;
        proof {
            assert(d0 =~= fill(
                d0,
                sw0,
                sh0,
                fmt,
                |a: int, c: int| start_x <= a < end_x && start_y <= c < end_y && c < cy,
                r,
                g,
                b,
            ));
        }
        while cy < end_y
            invariant
                self.wf(),
                self.same_screen(*old(self)),
                sw0 == self.width && sh0 == self.height && fmt == self.format,
                start_y <= cy <= end_y,
                start_x < end_x,
                self.data@ == fill(
                    d0,
                    sw0,
                    sh0,
                    fmt,
                    |a: int, c: int| start_x <= a < end_x && start_y <= c < end_y && c < cy,
                    r,
                    g,
                    b,
                ),
            decreases end_y - cy,
        {
            let mut cx = start_x;
            proof {
                lemma_fill_union(
                    d0,
                    sw0,
                    sh0,
                    fmt,
                    |a: int, c: int| start_x <= a < end_x && start_y <= c < end_y && c < cy,
                    |a: int, c: int| false,
                    |a: int, c: int|
                        start_x <= a < end_x && start_y <= c < end_y && (c < cy || (c == cy && a < cx)),
                    r,
                    g,
                    b,
                );
                assert(fill(self.data@, sw0, sh0, fmt, |a: int, c: int| false, r, g, b) =~= self.data@);
            }
            while cx < end_x
                invariant
                    self.wf(),
                    self.same_screen(*old(self)),
                    sw0 == self.width && sh0 == self.height && fmt == self.format,
                    start_y <= cy < end_y,
                    start_x <= cx <= end_x,
                    self.data@ == fill(
                        d0,
                        sw0,
                        sh0,
                        fmt,
                        |a: int, c: int|
                            start_x <= a < end_x && start_y <= c < end_y && (c < cy || (c == cy && a < cx)),
                        r,
                        g,
                        b,
                    ),
                decreases end_x - cx,
            {
                self.draw_pixel(cx, cy, r, g, b);
                proof {
                    lemma_fill_union(
                        d0,
                        sw0,
                        sh0,
                        fmt,
                        |a: int, c: int|
                            start_x <= a < end_x && start_y <= c < end_y && (c < cy || (c == cy && a < cx)),
                        |a: int, c: int| a == cx && c == cy,
                        |a: int, c: int|
                            start_x <= a < end_x && start_y <= c < end_y && (c < cy || (c == cy && a < cx + 1)),
                        r,
                        g,
                        b,
                    );
                }
                cx = cx + 1;
            }
            proof {
                assert(fill(
                    d0,
                    sw0,
                    sh0,
                    fmt,
                    |a: int, c: int|
                        start_x <= a < end_x && start_y <= c < end_y && (c < cy || (c == cy && a < end_x)),
                    r,
                    g,
                    b,
                ) =~= fill(
                    d0,
                    sw0,
                    sh0,
                    fmt,
                    |a: int, c: int| start_x <= a < end_x && start_y <= c < end_y && c < cy + 1,
                    r,
                    g,
                    b,
                ));
            }
            cy = cy + 1;
        }
        proof {
            assert(fill(
                d0,
                sw0,
                sh0,
                fmt,
                |a: int, c: int| start_x <= a < end_x && start_y <= c < end_y && c < end_y,
                r,
                g,
                b,
            ) =~= fill(d0, sw0, sh0, fmt, clipped, r, g, b));
        }
    }

    /// Blends the rectangle `w` by `h` at `(x, y)`, clipped to the screen,
    /// toward `(r, g, b)` with opacity `alpha`.
    pub fn draw_rect_alpha(&mut self, x: i32, y: i32, w: i32, h: i32, r: u8, g: u8, b: u8, alpha: u8)
        requires
            old(self).wf(),
            w > 0 && h > 0 ==> x + w <= i32::MAX && y + h <= i32::MAX,
        ensures
            final(self).wf(),
            final(self).same_screen(*old(self)),
            final(self).data@ == shade(
                old(self).data@,
                old(self).width as int,
                old(self).height as int,
                old(self).format,
                |a: int, c: int| in_rect(x as int, y as int, w as int, h as int, a, c),
                r,
                g,
                b,
                alpha,
            ),
    {
        let ghost sw0 = self.width as int;
        let ghost sh0 = self.height as int;
        let ghost fmt = self.format;
        let ghost d0 = self.data@;
        let ghost target = |a: int, c: int| in_rect(x as int, y as int, w as int, h as int, a, c);
        if w <= 0 || h <= 0 {
            proof {
                lemma_shade_screen(d0, sw0, sh0, fmt, target, |a: int, c: int| false, r, g, b, alpha);
                assert(d0 =~= shade(d0, sw0, sh0, fmt, |a: int, c: int| false, r, g, b, alpha));
            }
            return;
        }
        let sw = self.width;
        let sh = self.height;
        let start_y = if y > 0 {
            y
        } else {
            0
        };
        let end_y = if sh < y + h {
            sh
        } else {
            y + h
        };
        let start_x = if x > 0 {
            x
        } else {
            0
        };
        let end_x = if sw < x + w {
            sw
        } else {
            x + w
        };
        let ghost clipped = |a: int, c: int| start_x <= a < end_x && start_y <= c < end_y;
        proof {
            lemma_shade_screen(d0, sw0, sh0, fmt, target, clipped, r, g, b, alpha);
        }
        if start_x >= end_x || start_y >= end_y {
            proof {
                lemma_shade_screen(d0, sw0, sh0, fmt, clipped, |a: int, c: int| false, r, g, b, alpha);
                assert(d0 =~= shade(d0, sw0, sh0, fmt, |a: int, c: int| false, r, g, b, alpha));
            }
            return;
        }
        let mut cy = start_y;
        proof {
            assert(d0 =~= shade(
                d0,
                sw0,
                sh0,
                fmt,
                |a: int, c: int| start_x <= a < end_x && start_y <= c < end_y && c < cy,
                r,
                g,
                b,
                alpha,
            ));
        }
        while cy < end_y
            invariant
                self.wf(),
                self.same_screen(*old(self)),
                sw0 == self.width && sh0 == self.height && fmt == self.format,
                start_y <= cy <= end_y,
                start_x < end_x,
                self.data@ == shade(
                    d0,
                    sw0,
                    sh0,
                    fmt,
                    |a: int, c: int| start_x <= a < end_x && start_y <= c < end_y && c < cy,
                    r,
                    g,
                    b,
                    alpha,
                ),
            decreases end_y - cy,
        {
            let mut cx = start_x;
            proof {
                assert(shade(
                    d0,
                    sw0,
                    sh0,
                    fmt,
                    |a: int, c: int| start_x <= a < end_x && start_y <= c < end_y && c < cy,
                    r,
                    g,
                    b,
                    alpha,
                ) =~= shade(
                    d0,
                    sw0,
                    sh0,
                    fmt,
                    |a: int, c: int|
                        start_x <= a < end_x && start_y <= c < end_y && (c < cy || (c == cy && a < cx)),
                    r,
                    g,
                    b,
                    alpha,
                ));
            }
            while cx < end_x
                invariant
                    self.wf(),
                    self.same_screen(*old(self)),
                    sw0 == self.width && sh0 == self.height && fmt == self.format,
                    start_y <= cy < end_y,
                    start_x <= cx <= end_x,
                    self.data@ == shade(
                        d0,
                        sw0,
                        sh0,
                        fmt,
                        |a: int, c: int|
                            start_x <= a < end_x && start_y <= c < end_y && (c < cy || (c == cy && a < cx)),
                        r,
                        g,
                        b,
                        alpha,
                    ),
                decreases end_x - cx,
            {
                self.draw_pixel_alpha(cx, cy, r, g, b, alpha);
                proof {
                    lemma_shade_union(
                        d0,
                        sw0,
                        sh0,
                        fmt,
                        |a: int, c: int|
                            start_x <= a < end_x && start_y <= c < end_y && (c < cy || (c == cy && a < cx)),
                        cx as int,
                        cy as int,
                        |a: int, c: int|
                            start_x <= a < end_x && start_y <= c < end_y && (c < cy || (c == cy && a < cx + 1)),
                        r,
                        g,
                        b,
                        alpha,
                    );
                }
                cx = cx + 1;
            }
            proof {
                assert(shade(
                    d0,
                    sw0,
                    sh0,
                    fmt,
                    |a: int, c: int|
                        start_x <= a < end_x && start_y <= c < end_y && (c < cy || (c == cy && a < end_x)),
                    r,
                    g,
                    b,
                    alpha,
                ) =~= shade(
                    d0,
                    sw0,
                    sh0,
                    fmt,
                    |a: int, c: int| start_x <= a < end_x && start_y <= c < end_y && c < cy + 1,
                    r,
                    g,
                    b,
                    alpha,
                ));
            }
            cy = cy + 1;
        }
        proof {
            assert(shade(
                d0,
                sw0,
                sh0,
                fmt,
                |a: int, c: int| start_x <= a < end_x && start_y <= c < end_y && c < end_y,
                r,
                g,
                b,
                alpha,
            ) =~= shade(d0, sw0, sh0, fmt, clipped, r, g, b, alpha));
        }
    }
}

impl BackBuffer {
    /// Draws the frame of the rectangle `w` by `h` at `(x, y)`,
    /// `thickness` pixels thick: its top and bottom bands across the whole
    /// width and its left and right bands down the whole height.
    pub fn draw_rect_outline(&mut self, x: i32, y: i32, w: i32, h: i32, r: u8, g: u8, b: u8, thickness: i32)
        requires
            old(self).wf(),
            i32::MIN <= y + h <= i32::MAX,
            i32::MIN <= y + h - thickness <= i32::MAX,
            i32::MIN <= x + w <= i32::MAX,
            i32::MIN <= x + w - thickness <= i32::MAX,
            w > 0 && thickness > 0 ==> y + thickness <= i32::MAX,
            h > 0 && thickness > 0 ==> x + thickness <= i32::MAX,
        ensures
            final(self).wf(),
            final(self).same_screen(*old(self)),
            final(self).data@ == fill(
                old(self).data@,
                old(self).width as int,
                old(self).height as int,
                old(self).format,
                |a: int, c: int|
                    in_rect(x as int, y as int, w as int, thickness as int, a, c) || in_rect(
                        x as int,
                        y + h - thickness,
                        w as int,
                        thickness as int,
                        a,
                        c,
                    ) || in_rect(x as int, y as int, thickness as int, h as int, a, c) || in_rect(
                        x + w - thickness,
                        y as int,
                        thickness as int,
                        h as int,
                        a,
                        c,
                    ),
                r,
                g,
                b,
            ),
    {
        let ghost sw0 = self.width as int;
        let ghost sh0 = self.height as int;
        let ghost fmt = self.format;
        let ghost d0 = self.data@;
        let ghost top = |a: int, c: int| in_rect(x as int, y as int, w as int, thickness as int, a, c);
        let ghost bottom = |a: int, c: int| in_rect(x as int, y + h - thickness, w as int, thickness as int, a, c);
        let ghost left = |a: int, c: int| in_rect(x as int, y as int, thickness as int, h as int, a, c);
        let ghost right = |a: int, c: int| in_rect(x + w - thickness, y as int, thickness as int, h as int, a, c);
        self.draw_rect(x, y, w, thickness, r, g, b);
        self.draw_rect(x, y + h - thickness, w, thickness, r, g, b);
        proof {
            lemma_fill_union(d0, sw0, sh0, fmt, top, bottom, |a: int, c: int| top(a, c) || bottom(a, c), r, g, b);
        }
        self.draw_rect(x, y, thickness, h, r, g, b);
        proof {
            lemma_fill_union(
                d0,
                sw0,
                sh0,
                fmt,
                |a: int, c: int| top(a, c) || bottom(a, c),
                left,
                |a: int, c: int| top(a, c) || bottom(a, c) || left(a, c),
                r,
                g,
                b,
            );
        }
        self.draw_rect(x + w - thickness, y, thickness, h, r, g, b);
        proof {
            lemma_fill_union(
                d0,
                sw0,
                sh0,
                fmt,
                |a: int, c: int| top(a, c) || bottom(a, c) || left(a, c),
                right,
                |a: int, c: int| top(a, c) || bottom(a, c) || left(a, c) || right(a, c),
                r,
                g,
                b,
            );
        }
    }
}

/// The mouse cursor, twelve rows of eight cells: 1 for its black border,
/// 2 for its white inside, 0 for transparent.
pub open spec fn cursor_map() -> Seq<Seq<u8>> {
    seq![
        seq![1u8, 1, 0, 0, 0, 0, 0, 0],
        seq![1u8, 2, 1, 0, 0, 0, 0, 0],
        seq![1u8, 2, 2, 1, 0, 0, 0, 0],
        seq![1u8, 2, 2, 2, 1, 0, 0, 0],
        seq![1u8, 2, 2, 2, 2, 1, 0, 0],
        seq![1u8, 2, 2, 2, 2, 2, 1, 0],
        seq![1u8, 2, 2, 2, 2, 2, 2, 1],
        seq![1u8, 2, 2, 2, 2, 1, 1, 1],
        seq![1u8, 2, 2, 1, 2, 1, 0, 0],
        seq![1u8, 2, 1, 0, 1, 2, 1, 0],
        seq![1u8, 1, 0, 0, 0, 1, 1, 0],
        seq![0u8, 0, 0, 0, 0, 0, 0, 0],
    ]
}

/// Cell `(col, row)` of the cursor; 0 outside it.
pub open spec fn cursor_cell(row: int, col: int) -> u8 {
    if 0 <= row < 12 && 0 <= col < 8 {
        cursor_map()[row][col]
    } else {
        0
    }
}

/// Row `row` of the cursor.
fn cursor_row(row: usize) -> (cells: [u8; 8])
    requires
        row < 12,
    ensures
        cells@ == cursor_map()[row as int],
{
    let cells = match row {
        0 => [1u8, 1, 0, 0, 0, 0, 0, 0],
        1 => [1u8, 2, 1, 0, 0, 0, 0, 0],
        2 => [1u8, 2, 2, 1, 0, 0, 0, 0],
        3 => [1u8, 2, 2, 2, 1, 0, 0, 0],
        4 => [1u8, 2, 2, 2, 2, 1, 0, 0],
        5 => [1u8, 2, 2, 2, 2, 2, 1, 0],
        6 => [1u8, 2, 2, 2, 2, 2, 2, 1],
        7 => [1u8, 2, 2, 2, 2, 1, 1, 1],
        8 => [1u8, 2, 2, 1, 2, 1, 0, 0],
        9 => [1u8, 2, 1, 0, 1, 2, 1, 0],
        10 => [1u8, 1, 0, 0, 0, 1, 1, 0],
        _ => [0u8, 0, 0, 0, 0, 0, 0, 0],
    };
    assert(cells@ =~= cursor_map()[row as int]);
    cells
}

/// `data` with the cursor drawn with its top-left cell at `(cx, cy)` on a
/// `w` by `h` screen, for the cells before `(col, row)` in row order.
pub open spec fn cursor_drawn(data: Seq<u8>, w: int, h: int, cx: int, cy: int, row: int, col: int) -> Seq<u8> {
    Seq::new(
        data.len(),
        |i: int|
            {
                let a = (i / 3) % w;
                let c = (i / 3) / w;
                let k = cursor_cell(c - cy, a - cx);
                let before = c - cy < row || (c - cy == row && a - cx < col);
                if i < w * h * 3 && before && k == 1 {
                    0u8
                } else if i < w * h * 3 && before && k == 2 {
                    255u8
                } else {
                    data[i]
                }
            },
    )
}

impl BackBuffer {
    /// Draws the mouse cursor with its top-left cell at `(cx, cy)`: black
    /// border cells, white inside cells; cells off the screen are skipped.
    pub fn draw_cursor(&mut self, cx: i32, cy: i32)
        requires
            old(self).wf(),
            cx + 7 <= i32::MAX,
            cy + 10 <= i32::MAX,
        ensures
            final(self).wf(),
            final(self).same_screen(*old(self)),
            final(self).data@ == cursor_drawn(
                old(self).data@,
                old(self).width as int,
                old(self).height as int,
                cx as int,
                cy as int,
                12,
                0,
            ),
    {
        let ghost w = self.width as int;
        let ghost h = self.height as int;
        let ghost d0 = self.data@;
        assert(d0 =~= cursor_drawn(d0, w, h, cx as int, cy as int, 0, 0));
        let mut row: usize = 0;
        while row < 12
            invariant
                self.wf(),
                self.same_screen(*old(self)),
                w == self.width && h == self.height,
                row <= 12,
                cx + 7 <= i32::MAX,
                cy + 10 <= i32::MAX,
                self.data@ == cursor_drawn(d0, w, h, cx as int, cy as int, row as int, 0),
            decreases 12 - row,
        {
            let cells = cursor_row(row);
            let mut col: usize = 0;
            while col < 8
                invariant
                    self.wf(),
                    self.same_screen(*old(self)),
                    w == self.width && h == self.height,
                    row < 12,
                    col <= 8,
                    cx + 7 <= i32::MAX,
                    cy + 10 <= i32::MAX,
                    cells@ == cursor_map()[row as int],
                    self.data@ == cursor_drawn(d0, w, h, cx as int, cy as int, row as int, col as int),
                decreases 8 - col,
            {
                let px = cells[col];
                let ghost before = self.data@;
                if px == 1 {
                    assert(row <= 10 && col <= 7);
                    self.draw_pixel(cx + col as i32, cy + row as i32, 0, 0, 0);
                } else if px == 2 {
                    assert(row <= 10 && col <= 7);
                    self.draw_pixel(cx + col as i32, cy + row as i32, 255, 255, 255);
                }
                proof {
                    assert(cursor_cell(row as int, col as int) == px);
                    assert(self.data@ =~= cursor_drawn(d0, w, h, cx as int, cy as int, row as int, col + 1));
                }
                col = col + 1;
            }
            assert(cursor_drawn(d0, w, h, cx as int, cy as int, row as int, 8) =~= cursor_drawn(
                d0,
                w,
                h,
                cx as int,
                cy as int,
                row + 1,
                0,
            ));
            row = row + 1;
        }
    }
}

/// Channel value of row `y` of a `h`-row vertical gradient from `c1` at
/// the top toward `c2`: `c1 + (c2 - c1) * y / h`, the quotient rounded
/// toward zero.
pub open spec fn grad(c1: u8, c2: u8, y: int, h: int) -> u8 {
    if c2 >= c1 {
        (c1 + ((c2 - c1) * y) / h) as u8
    } else {
        (c1 - ((c1 - c2) * y) / h) as u8
    }
}

/// `(c2 - c1) * y` fits an `i32` for every row `y` of `h`.
pub open spec fn grad_fits(c1: u8, c2: u8, h: int) -> bool {
    h <= 0 || (if c2 >= c1 {
        c2 - c1
    } else {
        c1 - c2
    }) * (h - 1) <= i32::MAX
}

/// `data` with the gradient from `(r1, g1, b1)` to `(r2, g2, b2)` drawn on
/// a `w` by `h` screen, for the pixels before `(col, row)` in row order.
pub open spec fn gradient_drawn(
    data: Seq<u8>,
    w: int,
    h: int,
    format: u32,
    r1: u8,
    g1: u8,
    b1: u8,
    r2: u8,
    g2: u8,
    b2: u8,
    row: int,
    col: int,
) -> Seq<u8> {
    Seq::new(
        data.len(),
        |i: int|
            {
                let a = (i / 3) % w;
                let c = (i / 3) / w;
                if i < w * h * 3 && (c < row || (c == row && a < col)) {
                    channel(format, i % 3, grad(r1, r2, c, h), grad(g1, g2, c, h), grad(b1, b2, c, h))
                } else {
                    data[i]
                }
            },
    )
}

/// Channel value of row `y` of a gradient; see `grad`.
fn grad_channel(c1: u8, c2: u8, y: i32, h: i32) -> (v: u8)
    requires
        0 <= y < h,
        grad_fits(c1, c2, h as int),
    ensures
        v == grad(c1, c2, y as int, h as int),
{
    let d: i32 = if c2 >= c1 {
        (c2 - c1) as i32
    } else {
        (c1 - c2) as i32
    };
    assert(0 <= d * y <= d * (h - 1)) by (nonlinear_arith)
        requires
            0 <= d,
            0 <= y <= h - 1,
    ;
    let n: i32 = d * y;
    let q: i32 = n / h;
    assert(q <= d) by (nonlinear_arith)
        requires
            q == n / h,
            n == d * y,
            0 <= y < h,
            0 <= d,
    ;
    if c2 >= c1 {
        (c1 as i32 + q) as u8
    } else {
        (c1 as i32 - q) as u8
    }
}

impl BackBuffer {
    /// Fills the screen with a vertical gradient from `(r1, g1, b1)` in the
    /// top row toward `(r2, g2, b2)`; see `grad`.
    pub fn draw_gradient(&mut self, r1: u8, g1: u8, b1: u8, r2: u8, g2: u8, b2: u8)
        requires
            old(self).wf(),
            grad_fits(r1, r2, old(self).height as int),
            grad_fits(g1, g2, old(self).height as int),
            grad_fits(b1, b2, old(self).height as int),
        ensures
            final(self).wf(),
            final(self).same_screen(*old(self)),
            final(self).data@ == gradient_drawn(
                old(self).data@,
                old(self).width as int,
                old(self).height as int,
                old(self).format,
                r1,
                g1,
                b1,
                r2,
                g2,
                b2,
                old(self).height as int,
                0,
            ),
    {
        let ghost w = self.width as int;
        let ghost h = self.height as int;
        let ghost fmt = self.format;
        let ghost d0 = self.data@;
        let sw = self.width;
        let sh = self.height;
        assert(d0 =~= gradient_drawn(d0, w, h, fmt, r1, g1, b1, r2, g2, b2, 0, 0));
        let mut y: i32 = 0;
        while y < sh
            invariant
                self.wf(),
                self.same_screen(*old(self)),
                w == self.width && h == self.height && fmt == self.format,
                sw == w && sh == h,
                0 <= y <= sh,
                grad_fits(r1, r2, h),
                grad_fits(g1, g2, h),
                grad_fits(b1, b2, h),
                self.data@ == gradient_drawn(d0, w, h, fmt, r1, g1, b1, r2, g2, b2, y as int, 0),
            decreases sh - y,
        {
            let r = grad_channel(r1, r2, y, sh);
            let g = grad_channel(g1, g2, y, sh);
            let b = grad_channel(b1, b2, y, sh);
            let mut x: i32 = 0;
            while x < sw
                invariant
                    self.wf(),
                    self.same_screen(*old(self)),
                    w == self.width && h == self.height && fmt == self.format,
                    sw == w && sh == h,
                    0 <= y < sh,
                    0 <= x <= sw,
                    r == grad(r1, r2, y as int, h),
                    g == grad(g1, g2, y as int, h),
                    b == grad(b1, b2, y as int, h),
                    self.data@ == gradient_drawn(d0, w, h, fmt, r1, g1, b1, r2, g2, b2, y as int, x as int),
                decreases sw - x,
            {
                self.draw_pixel(x, y, r, g, b);
                proof {
                    assert(self.data@ =~= gradient_drawn(d0, w, h, fmt, r1, g1, b1, r2, g2, b2, y as int, x + 1));
                }
                x = x + 1;
            }
            proof {
                assert forall|i: int| 0 <= i < d0.len() implies #[trigger] gradient_drawn(
                    d0,
                    w,
                    h,
                    fmt,
                    r1,
                    g1,
                    b1,
                    r2,
                    g2,
                    b2,
                    y as int,
                    sw as int,
                )[i] == gradient_drawn(d0, w, h, fmt, r1, g1, b1, r2, g2, b2, y + 1, 0)[i] by {
                    if i < w * h * 3 {
                        lemma_screen_bytes(i, w, h);
                    }
                }
                assert(gradient_drawn(d0, w, h, fmt, r1, g1, b1, r2, g2, b2, y as int, sw as int) =~= gradient_drawn(
                    d0,
                    w,
                    h,
                    fmt,
                    r1,
                    g1,
                    b1,
                    r2,
                    g2,
                    b2,
                    y + 1,
                    0,
                ));
            }
            y = y + 1;
        }
    }
}

/// One step of a line drawn with the error term `err` (Bresenham): the
/// column moves by `sx` when twice the error exceeds `-dy`, the row by
/// `sy` when it is below `dx`; the error is updated for each move.
pub open spec fn line_step(dx: int, dy: int, sx: int, sy: int, cx: int, cy: int, err: int) -> (int, int, int) {
    let e2 = 2 * err;
    let err1 = if e2 > -dy {
        err - dy
    } else {
        err
    };
    let cx1 = if e2 > -dy {
        cx + sx
    } else {
        cx
    };
    let err2 = if e2 < dx {
        err1 + dx
    } else {
        err1
    };
    let cy1 = if e2 < dx {
        cy + sy
    } else {
        cy
    };
    (cx1, cy1, err2)
}

/// The pixels a line visits from `(cx, cy)` with error `err` until it
/// reaches `(x1, y1)`, within `fuel` pixels.
pub open spec fn line_points(
    x1: int,
    y1: int,
    dx: int,
    dy: int,
    sx: int,
    sy: int,
    cx: int,
    cy: int,
    err: int,
    fuel: nat,
) -> Seq<(int, int)>
    decreases fuel,
{
    if fuel == 0 {
        Seq::empty()
    } else if cx == x1 && cy == y1 {
        seq![(cx, cy)]
    } else {
        let (nx, ny, ne) = line_step(dx, dy, sx, sy, cx, cy, err);
        seq![(cx, cy)] + line_points(x1, y1, dx, dy, sx, sy, nx, ny, ne, (fuel - 1) as nat)
    }
}

/// The arithmetic of the steps from `(cx, cy)` fits an `i32`.
pub open spec fn line_fits(
    x1: int,
    y1: int,
    dx: int,
    dy: int,
    sx: int,
    sy: int,
    cx: int,
    cy: int,
    err: int,
    fuel: nat,
) -> bool
    decreases fuel,
{
    if fuel == 0 || (cx == x1 && cy == y1) {
        true
    } else {
        let e2 = 2 * err;
        let err1 = if e2 > -dy {
            err - dy
        } else {
            err
        };
        let (nx, ny, ne) = line_step(dx, dy, sx, sy, cx, cy, err);
        &&& i32::MIN <= e2 <= i32::MAX
        &&& i32::MIN <= err1
        &&& (e2 < dx ==> err1 + dx <= i32::MAX)
        &&& line_fits(x1, y1, dx, dy, sx, sy, nx, ny, ne, (fuel - 1) as nat)
    }
}

/// Distance between `a` and `b`.
pub open spec fn dist(a: int, b: int) -> int {
    if a >= b {
        a - b
    } else {
        b - a
    }
}

/// The pixels of the line from `(x0, y0)` to `(x1, y1)`, in drawing order.
pub open spec fn line_pixels(x0: int, y0: int, x1: int, y1: int) -> Seq<(int, int)> {
    let dx = dist(x1, x0);
    let dy = dist(y1, y0);
    let sx = if x0 < x1 {
        1int
    } else {
        -1int
    };
    let sy = if y0 < y1 {
        1int
    } else {
        -1int
    };
    line_points(x1, y1, dx, dy, sx, sy, x0, y0, dx - dy, (dx + dy + 1) as nat)
}

/// The line from `(x0, y0)` to `(x1, y1)` can be computed in `i32`.
pub open spec fn line_ok(x0: int, y0: int, x1: int, y1: int) -> bool {
    let dx = dist(x1, x0);
    let dy = dist(y1, y0);
    let sx = if x0 < x1 {
        1int
    } else {
        -1int
    };
    let sy = if y0 < y1 {
        1int
    } else {
        -1int
    };
    &&& i32::MIN < x1 - x0 <= i32::MAX
    &&& i32::MIN < y1 - y0 <= i32::MAX
    &&& line_fits(x1, y1, dx, dy, sx, sy, x0, y0, dx - dy, (dx + dy + 1) as nat)
}

/// `(a, c)` is one of `pts`.
pub open spec fn on_line(pts: Seq<(int, int)>, a: int, c: int) -> bool {
    exists|k: int| 0 <= k < pts.len() && pts[k] == (a, c)
}

/// A step from a point short of the end moves toward it without passing
/// it, in at least one direction.
proof fn lemma_line_step(dx: int, dy: int, i: int, j: int, err: int)
    requires
        0 <= i <= dx,
        0 <= j <= dy,
        err == (j + 1) * dx - (i + 1) * dy,
        !(i == dx && j == dy),
    ensures
        2 * err > -dy ==> i < dx,
        2 * err < dx ==> j < dy,
        2 * err > -dy || 2 * err < dx,
        err - dy == (j + 1) * dx - (i + 2) * dy,
        err + dx == (j + 2) * dx - (i + 1) * dy,
        err - dy + dx == (j + 2) * dx - (i + 2) * dy,
{
    assert(2 * err > -dy ==> i < dx) by (nonlinear_arith)
        requires
            0 <= i <= dx,
            0 <= j <= dy,
            err == (j + 1) * dx - (i + 1) * dy,
            !(i == dx && j == dy),
    ;
    assert(2 * err < dx ==> j < dy) by (nonlinear_arith)
        requires
            0 <= i <= dx,
            0 <= j <= dy,
            err == (j + 1) * dx - (i + 1) * dy,
            !(i == dx && j == dy),
    ;
    assert(2 * err > -dy || 2 * err < dx) by (nonlinear_arith)
        requires
            0 <= i <= dx,
            0 <= j <= dy,
            err == (j + 1) * dx - (i + 1) * dy,
            !(i == dx && j == dy),
    ;
    assert(err - dy == (j + 1) * dx - (i + 2) * dy) by (nonlinear_arith)
        requires
            err == (j + 1) * dx - (i + 1) * dy,
    ;
    assert(err + dx == (j + 2) * dx - (i + 1) * dy) by (nonlinear_arith)
        requires
            err == (j + 1) * dx - (i + 1) * dy,
    ;
    assert(err - dy + dx == (j + 2) * dx - (i + 2) * dy) by (nonlinear_arith)
        requires
            err == (j + 1) * dx - (i + 1) * dy,
    ;
}

impl BackBuffer {
    /// Draws the line from `(x0, y0)` to `(x1, y1)` pixel by pixel
    /// (Bresenham); see `line_pixels`. Pixels off the screen are skipped.
    pub fn draw_line(&mut self, x0: i32, y0: i32, x1: i32, y1: i32, r: u8, g: u8, b: u8)
        requires
            old(self).wf(),
            line_ok(x0 as int, y0 as int, x1 as int, y1 as int),
        ensures
            final(self).wf(),
            final(self).same_screen(*old(self)),
            final(self).data@ == fill(
                old(self).data@,
                old(self).width as int,
                old(self).height as int,
                old(self).format,
                |a: int, c: int| on_line(line_pixels(x0 as int, y0 as int, x1 as int, y1 as int), a, c),
                r,
                g,
                b,
            ),
    {
        let ghost w = self.width as int;
        let ghost h = self.height as int;
        let ghost fmt = self.format;
        let ghost d0 = self.data@;
        let ddx = x1 - x0;
        let ddy = y1 - y0;
        let dx = if ddx < 0 {
            -ddx
        } else {
            ddx
        };
        let dy = if ddy < 0 {
            -ddy
        } else {
            ddy
        };
        let sx: i32 = if x0 < x1 {
            1
        } else {
            -1
        };
        let sy: i32 = if y0 < y1 {
            1
        } else {
            -1
        };
        let mut err = dx - dy;
        let mut cx = x0;
        let mut cy = y0;
        let ghost fuel0: nat = (dx + dy + 1) as nat;
        let ghost full = line_points(x1 as int, y1 as int, dx as int, dy as int, sx as int, sy as int, x0 as int, y0 as int, err as int, fuel0);
        let ghost mut visited: Seq<(int, int)> = Seq::empty();
        let ghost mut i: int = 0;
        let ghost mut j: int = 0;
        assert(full == line_pixels(x0 as int, y0 as int, x1 as int, y1 as int));
        proof {
            lemma_fill_screen(d0, w, h, fmt, |a: int, c: int| on_line(visited, a, c), |a: int, c: int| false, r, g, b);
            assert(d0 =~= fill(d0, w, h, fmt, |a: int, c: int| false, r, g, b));
        }
        loop
            invariant_except_break
                self.wf(),
                self.same_screen(*old(self)),
                w == self.width && h == self.height && fmt == self.format,
                dx == dist(x1 as int, x0 as int),
                dy == dist(y1 as int, y0 as int),
                sx == 1 || sx == -1,
                sy == 1 || sy == -1,
                x1 == x0 + sx * dx,
                y1 == y0 + sy * dy,
                0 <= i <= dx,
                0 <= j <= dy,
                cx == x0 + sx * i,
                cy == y0 + sy * j,
                err == (j + 1) * dx - (i + 1) * dy,
                visited.len() <= i + j,
                full == visited + line_points(
                    x1 as int,
                    y1 as int,
                    dx as int,
                    dy as int,
                    sx as int,
                    sy as int,
                    cx as int,
                    cy as int,
                    err as int,
                    (fuel0 - visited.len()) as nat,
                ),
                fuel0 == dx + dy + 1,
                line_fits(
                    x1 as int,
                    y1 as int,
                    dx as int,
                    dy as int,
                    sx as int,
                    sy as int,
                    cx as int,
                    cy as int,
                    err as int,
                    (fuel0 - visited.len()) as nat,
                ),
                self.data@ == fill(d0, w, h, fmt, |a: int, c: int| on_line(visited, a, c), r, g, b),
            ensures
                self.wf(),
                self.same_screen(*old(self)),
                self.data@ == fill(d0, w, h, fmt, |a: int, c: int| on_line(full, a, c), r, g, b),
            decreases (dx - i) + (dy - j),
        {
            self.draw_pixel(cx, cy, r, g, b);
            let ghost rest = (fuel0 - visited.len()) as nat;
            proof {
                assert forall|a: int, c: int| #[trigger] on_line(visited.push((cx as int, cy as int)), a, c) == (on_line(visited, a, c) || (a == cx && c == cy)) by {
                    let v2 = visited.push((cx as int, cy as int));
                    if on_line(visited, a, c) {
                        let k = choose|k: int| 0 <= k < visited.len() && visited[k] == (a, c);
                        assert(v2[k] == (a, c));
                    }
                    if a == cx && c == cy {
                        assert(v2[visited.len() as int] == (a, c));
                    }
                    if on_line(v2, a, c) {
                        let k = choose|k: int| 0 <= k < v2.len() && v2[k] == (a, c);
                        if k < visited.len() {
                            assert(visited[k] == (a, c));
                        }
                    }
                }
                lemma_fill_union(
                    d0,
                    w,
                    h,
                    fmt,
                    |a: int, c: int| on_line(visited, a, c),
                    |a: int, c: int| a == cx && c == cy,
                    |a: int, c: int| on_line(visited.push((cx as int, cy as int)), a, c),
                    r,
                    g,
                    b,
                );
                assert(rest >= 1);
            }
            if cx == x1 && cy == y1 {
                proof {
                    assert(line_points(x1 as int, y1 as int, dx as int, dy as int, sx as int, sy as int, cx as int, cy as int, err as int, rest)
                        == seq![(cx as int, cy as int)]);
                    assert(full =~= visited.push((cx as int, cy as int)));
                }
                break;
            }
            proof {
                assert(!(i == dx && j == dy)) by {
                    if i == dx && j == dy {
                        assert(cx == x1 && cy == y1);
                    }
                }
                lemma_line_step(dx as int, dy as int, i, j, err as int);
            }
            let e2 = err * 2;
            let ghost old_err = err as int;
            let ghost pcx = cx as int;
            let ghost pcy = cy as int;
            if e2 > -dy {
                err = err - dy;
                cx = cx + sx;
                proof {
                    i = i + 1;
                }
            }
            if e2 < dx {
                err = err + dx;
                cy = cy + sy;
                proof {
                    j = j + 1;
                }
            }
            proof {
                assert(line_step(dx as int, dy as int, sx as int, sy as int, pcx, pcy, old_err) == (cx as int, cy as int, err as int));
                assert(full =~= visited.push((pcx, pcy)) + line_points(
                    x1 as int,
                    y1 as int,
                    dx as int,
                    dy as int,
                    sx as int,
                    sy as int,
                    cx as int,
                    cy as int,
                    err as int,
                    (rest - 1) as nat,
                ));
                visited = visited.push((pcx, pcy));
            }
        }
    }
}

/// From a point of the line short of the end, the remaining pixels start
/// there and end at the end point, given fuel for every remaining step.
proof fn lemma_line_points_ends(
    x0: int,
    y0: int,
    x1: int,
    y1: int,
    dx: int,
    dy: int,
    sx: int,
    sy: int,
    i: int,
    j: int,
    fuel: nat,
)
    requires
        sx == 1 || sx == -1,
        sy == 1 || sy == -1,
        x1 == x0 + sx * dx,
        y1 == y0 + sy * dy,
        0 <= i <= dx,
        0 <= j <= dy,
        fuel >= (dx - i) + (dy - j) + 1,
    ensures
        ({
            let pts = line_points(
                x1,
                y1,
                dx,
                dy,
                sx,
                sy,
                x0 + sx * i,
                y0 + sy * j,
                (j + 1) * dx - (i + 1) * dy,
                fuel,
            );
            &&& pts.len() >= 1
            &&& pts[0] == (x0 + sx * i, y0 + sy * j)
            &&& pts.last() == (x1, y1)
        }),
    decreases fuel,
{
    let cx = x0 + sx * i;
    let cy = y0 + sy * j;
    let err = (j + 1) * dx - (i + 1) * dy;
    if cx == x1 && cy == y1 {
    } else {
        assert(!(i == dx && j == dy));
        lemma_line_step(dx, dy, i, j, err);
        let e2 = 2 * err;
        let i2 = if e2 > -dy {
            i + 1
        } else {
            i
        };
        let j2 = if e2 < dx {
            j + 1
        } else {
            j
        };
        if e2 > -dy {
            assert(sx * i2 == sx * i + sx) by (nonlinear_arith)
                requires
                    i2 == i + 1,
            ;
        }
        if e2 < dx {
            assert(sy * j2 == sy * j + sy) by (nonlinear_arith)
                requires
                    j2 == j + 1,
            ;
        }
        assert(line_step(dx, dy, sx, sy, cx, cy, err) == (x0 + sx * i2, y0 + sy * j2, (j2 + 1) * dx - (i2 + 1) * dy));
        lemma_line_points_ends(x0, y0, x1, y1, dx, dy, sx, sy, i2, j2, (fuel - 1) as nat);
    }
}

/// A line starts at its first end point and stops at its second.
pub proof fn law_line_endpoints(x0: int, y0: int, x1: int, y1: int)
    ensures
        line_pixels(x0, y0, x1, y1).len() >= 1,
        line_pixels(x0, y0, x1, y1)[0] == (x0, y0),
        line_pixels(x0, y0, x1, y1).last() == (x1, y1),
{
    let dx = dist(x1, x0);
    let dy = dist(y1, y0);
    let sx = if x0 < x1 {
        1int
    } else {
        -1int
    };
    let sy = if y0 < y1 {
        1int
    } else {
        -1int
    };
    assert((0 + 1) * dx - (0 + 1) * dy == dx - dy) by (nonlinear_arith);
    assert(x1 == x0 + sx * dx) by (nonlinear_arith)
        requires
            dx == dist(x1, x0),
            sx == (if x0 < x1 {
                1int
            } else {
                -1int
            }),
    ;
    assert(y1 == y0 + sy * dy) by (nonlinear_arith)
        requires
            dy == dist(y1, y0),
            sy == (if y0 < y1 {
                1int
            } else {
                -1int
            }),
    ;
    assert(x0 + sx * 0 == x0 && y0 + sy * 0 == y0) by (nonlinear_arith);
    lemma_line_points_ends(x0, y0, x1, y1, dx, dy, sx, sy, 0, 0, (dx + dy + 1) as nat);
}

impl BackBuffer {
    /// Draws the line from `(x0, y0)` to `(x1, y1)` two pixels thick: the
    /// line and a copy one pixel below it when it is rather horizontal, one
    /// pixel to its right otherwise.
    pub fn draw_line_thick(&mut self, x0: i32, y0: i32, x1: i32, y1: i32, r: u8, g: u8, b: u8)
        requires
            old(self).wf(),
            line_ok(x0 as int, y0 as int, x1 as int, y1 as int),
            dist(x1 as int, x0 as int) >= dist(y1 as int, y0 as int) ==> y0 + 1 <= i32::MAX && y1 + 1
                <= i32::MAX && line_ok(x0 as int, y0 + 1, x1 as int, y1 + 1),
            dist(x1 as int, x0 as int) < dist(y1 as int, y0 as int) ==> x0 + 1 <= i32::MAX && x1 + 1
                <= i32::MAX && line_ok(x0 + 1, y0 as int, x1 + 1, y1 as int),
        ensures
            final(self).wf(),
            final(self).same_screen(*old(self)),
            final(self).data@ == fill(
                old(self).data@,
                old(self).width as int,
                old(self).height as int,
                old(self).format,
                |a: int, c: int|
                    on_line(line_pixels(x0 as int, y0 as int, x1 as int, y1 as int), a, c) || if dist(
                        x1 as int,
                        x0 as int,
                    ) >= dist(y1 as int, y0 as int) {
                        on_line(line_pixels(x0 as int, y0 + 1, x1 as int, y1 + 1), a, c)
                    } else {
                        on_line(line_pixels(x0 + 1, y0 as int, x1 + 1, y1 as int), a, c)
                    },
                r,
                g,
                b,
            ),
    {
        let ghost w = self.width as int;
        let ghost h = self.height as int;
        let ghost fmt = self.format;
        let ghost d0 = self.data@;
        let ddx = x1 - x0;
        let ddy = y1 - y0;
        let dx = if ddx < 0 {
            -ddx
        } else {
            ddx
        };
        let dy = if ddy < 0 {
            -ddy
        } else {
            ddy
        };
        self.draw_line(x0, y0, x1, y1, r, g, b);
        let ghost first = |a: int, c: int| on_line(line_pixels(x0 as int, y0 as int, x1 as int, y1 as int), a, c);
        if dx >= dy {
            self.draw_line(x0, y0 + 1, x1, y1 + 1, r, g, b);
            proof {
                let second = |a: int, c: int| on_line(line_pixels(x0 as int, y0 + 1, x1 as int, y1 + 1), a, c);
                lemma_fill_union(d0, w, h, fmt, first, second, |a: int, c: int| first(a, c) || second(a, c), r, g, b);
            }
        } else {
            self.draw_line(x0 + 1, y0, x1 + 1, y1, r, g, b);
            proof {
                let second = |a: int, c: int| on_line(line_pixels(x0 + 1, y0 as int, x1 + 1, y1 as int), a, c);
                lemma_fill_union(d0, w, h, fmt, first, second, |a: int, c: int| first(a, c) || second(a, c), r, g, b);
            }
        }
        proof {
            assert(self.data@ =~= fill(
                d0,
                w,
                h,
                fmt,
                |a: int, c: int|
                    on_line(line_pixels(x0 as int, y0 as int, x1 as int, y1 as int), a, c) || if dist(
                        x1 as int,
                        x0 as int,
                    ) >= dist(y1 as int, y0 as int) {
                        on_line(line_pixels(x0 as int, y0 + 1, x1 as int, y1 + 1), a, c)
                    } else {
                        on_line(line_pixels(x0 + 1, y0 as int, x1 + 1, y1 as int), a, c)
                    },
                r,
                g,
                b,
            ));
        }
    }
}

/// Draws the mouse cursor straight onto the screen memory `buf` of a
/// `sw` by `sh` screen, with its top-left cell at `(cx, cy)`: black border
/// cells, white inside cells, cells off the screen skipped (see
/// `cursor_drawn`).
pub fn draw_cursor_to_buf(buf: &mut Vec<u8>, cx: i32, cy: i32, sw: i32, sh: i32)
    requires
        0 <= sw && 0 <= sh,
        sw * sh * 3 <= old(buf)@.len(),
        sw * sh * 3 <= i32::MAX,
        cx + 7 <= i32::MAX,
        cy + 11 <= i32::MAX,
    ensures
        final(buf)@ == cursor_drawn(old(buf)@, sw as int, sh as int, cx as int, cy as int, 12, 0),
{
    let mut screen = BackBuffer { data: Vec::new(), width: sw, height: sh, format: 0 };
    std::mem::swap(&mut screen.data, buf);
    screen.draw_cursor(cx, cy);
    std::mem::swap(&mut screen.data, buf);
}

/// Whether byte `i` of a `sw` by `sh` screen lies in the columns `x0..x1`
/// and rows `y0..y1`.
pub open spec fn in_span(i: int, sw: int, sh: int, x0: int, x1: int, y0: int, y1: int) -> bool {
    let p = i / 3;
    &&& 0 <= i < sw * sh * 3
    &&& x0 <= p % sw < x1
    &&& y0 <= p / sw < y1
}

/// The larger of `a` and `b`.
pub open spec fn max_i(a: int, b: int) -> int {
    if a > b {
        a
    } else {
        b
    }
}

/// The smaller of `a` and `b`.
pub open spec fn min_i(a: int, b: int) -> int {
    if a < b {
        a
    } else {
        b
    }
}

/// `fb` with the rectangle `rw` by `rh` at `(rx, ry)`, clipped to the
/// `sw` by `sh` screen, copied from `back`.
pub open spec fn rect_restored(fb: Seq<u8>, back: Seq<u8>, rx: int, ry: int, rw: int, rh: int, sw: int, sh: int) -> Seq<u8> {
    Seq::new(
        fb.len(),
        |i: int|
            if rw > 0 && rh > 0 && in_span(i, sw, sh, max_i(0, rx), min_i(sw, rx + rw), max_i(0, ry), min_i(sh, ry + rh)) {
                back[i]
            } else {
                fb[i]
            },
    )
}

/// Copies the rectangle `rw` by `rh` at `(rx, ry)` of the back buffer
/// `back`, clipped to the `sw` by `sh` screen, onto the screen memory
/// `fb`, row by row; see `rect_restored`.
pub fn copy_rect_back_to_fb(fb: &mut Vec<u8>, back: &Vec<u8>, rx: i32, ry: i32, rw: i32, rh: i32, sw: i32, sh: i32)
    requires
        0 < sw && 0 < sh,
        sw * sh * 3 <= old(fb)@.len(),
        sw * sh * 3 <= back@.len(),
        sw * sh * 3 <= i32::MAX,
        rw > 0 && rh > 0 ==> ry + rh <= i32::MAX && rx + rw <= i32::MAX,
    ensures
        final(fb)@ == rect_restored(old(fb)@, back@, rx as int, ry as int, rw as int, rh as int, sw as int, sh as int),
{
    let ghost f0 = fb@;
    if rw <= 0 || rh <= 0 {
        assert(fb@ =~= rect_restored(f0, back@, rx as int, ry as int, rw as int, rh as int, sw as int, sh as int));
        return;
    }
    let start_y = if ry > 0 {
        ry
    } else {
        0
    };
    let end_y = if sh < ry + rh {
        sh
    } else {
        ry + rh
    };
    let start_x = if rx > 0 {
        rx
    } else {
        0
    };
    let end_x = if sw < rx + rw {
        sw
    } else {
        rx + rw
    };
    if start_x >= end_x || start_y >= end_y {
        proof {
            assert forall|i: int| 0 <= i < f0.len() implies !in_span(
                i,
                sw as int,
                sh as int,
                start_x as int,
                end_x as int,
                start_y as int,
                end_y as int,
            ) by {}
        }
        assert(fb@ =~= rect_restored(f0, back@, rx as int, ry as int, rw as int, rh as int, sw as int, sh as int));
        return;
    }
    let mut cy: i32 = start_y;
    while cy < end_y
        invariant
            0 <= start_x < end_x <= sw,
            0 <= start_y <= cy <= end_y <= sh,
            sw * sh * 3 <= f0.len(),
            sw * sh * 3 <= back@.len(),
            sw * sh * 3 <= i32::MAX,
            fb@.len() == f0.len(),
            forall|i: int|
                0 <= i < f0.len() ==> #[trigger] fb@[i] == if in_span(
                    i,
                    sw as int,
                    sh as int,
                    start_x as int,
                    end_x as int,
                    start_y as int,
                    cy as int,
                ) {
                    back@[i]
                } else {
                    f0[i]
                },
        decreases end_y - cy,
    {
        proof {
            assert((cy * sw + end_x) * 3 <= sw * sh * 3) by (nonlinear_arith)
                requires
                    0 <= cy < sh,
                    end_x <= sw,
                    0 <= sw,
            ;
            assert(cy * sw <= (cy * sw + end_x) * 3) by (nonlinear_arith)
                requires
                    0 <= cy,
                    0 <= sw,
                    0 <= end_x,
            ;
        }
        let row_offset = (cy * sw) as usize;
        let first = (row_offset + start_x as usize) * 3;
        let last = (row_offset + end_x as usize) * 3;
        let mut j: usize = first;
        while j < last
            invariant
                0 <= start_x < end_x <= sw,
                0 <= start_y <= cy < end_y <= sh,
                sw * sh * 3 <= f0.len(),
                sw * sh * 3 <= back@.len(),
                row_offset == cy * sw,
                first == (cy * sw + start_x) * 3,
                last == (cy * sw + end_x) * 3,
                last <= sw * sh * 3,
                first <= j <= last,
                fb@.len() == f0.len(),
                forall|i: int|
                    0 <= i < f0.len() ==> #[trigger] fb@[i] == if in_span(
                        i,
                        sw as int,
                        sh as int,
                        start_x as int,
                        end_x as int,
                        start_y as int,
                        cy as int,
                    ) || (first <= i < j) {
                        back@[i]
                    } else {
                        f0[i]
                    },
            decreases last - j,
        {
            fb.set(j, back[j]);
            j = j + 1;
        }
        proof {
            assert forall|i: int| 0 <= i < f0.len() implies (in_span(
                i,
                sw as int,
                sh as int,
                start_x as int,
                end_x as int,
                start_y as int,
                cy + 1,
            ) <==> (in_span(
                i,
                sw as int,
                sh as int,
                start_x as int,
                end_x as int,
                start_y as int,
                cy as int,
            ) || (first <= i < last))) by {
                lemma_span_row(i, sw as int, sh as int, start_x as int, end_x as int, start_y as int, cy as int);
            }
        }
        cy = cy + 1;
    }
    assert(fb@ =~= rect_restored(f0, back@, rx as int, ry as int, rw as int, rh as int, sw as int, sh as int));
}

/// Adding row `cy` to the rows of a span adds the bytes of its columns in
/// that row.
proof fn lemma_span_row(i: int, sw: int, sh: int, x0: int, x1: int, y0: int, cy: int)
    requires
        0 <= x0 < x1 <= sw,
        0 <= y0 <= cy < sh,
        0 <= i,
    ensures
        in_span(i, sw, sh, x0, x1, y0, cy + 1) <==> (in_span(i, sw, sh, x0, x1, y0, cy) || ((cy * sw + x0) * 3 <= i
            < (cy * sw + x1) * 3)),
{
    let p = i / 3;
    assert(p == i / 3);
    if (cy * sw + x0) * 3 <= i < (cy * sw + x1) * 3 {
        assert(cy * sw + x0 <= p < cy * sw + x1) by (nonlinear_arith)
            requires
                (cy * sw + x0) * 3 <= i < (cy * sw + x1) * 3,
                p == i / 3,
        ;
        assert(p / sw == cy && p % sw == p - cy * sw) by (nonlinear_arith)
            requires
                cy * sw + x0 <= p < cy * sw + x1,
                0 <= x0 < x1 <= sw,
                0 <= cy,
        ;
        assert(i < sw * sh * 3) by (nonlinear_arith)
            requires
                i < (cy * sw + x1) * 3,
                cy < sh,
                x1 <= sw,
                0 <= sw,
        ;
    }
    if in_span(i, sw, sh, x0, x1, y0, cy + 1) && p / sw == cy {
        assert(p == cy * sw + p % sw) by (nonlinear_arith)
            requires
                p / sw == cy,
                0 < sw,
        ;
        assert((cy * sw + x0) * 3 <= i < (cy * sw + x1) * 3) by (nonlinear_arith)
            requires
                p == cy * sw + p % sw,
                x0 <= p % sw < x1,
                p == i / 3,
                0 <= i,
        ;
    }
    if in_span(i, sw, sh, x0, x1, y0, cy) {
        assert(!((cy * sw + x0) * 3 <= i < (cy * sw + x1) * 3) || p / sw == cy) by (nonlinear_arith)
            requires
                0 <= i,
                p == i / 3,
                0 < sw,
                0 <= x0 < x1 <= sw,
        {
            if (cy * sw + x0) * 3 <= i < (cy * sw + x1) * 3 {
                assert(cy * sw + x0 <= p < cy * sw + x1);
                assert(p / sw == cy);
            }
        }
    }
}

} // verus!
