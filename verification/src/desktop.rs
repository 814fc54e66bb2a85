//! Window bookkeeping of the user-mode desktop: which windows exist, their
//! stacking order and which one has the focus.
use vstd::prelude::*;

verus! {

/// A desktop window.
#[derive(Clone, Copy)]
pub struct Window {
    /// Identifier.
    pub id: u8,
    /// Title.
    pub title: &'static str,
    /// Left edge.
    pub x: i32,
    /// Top edge.
    pub y: i32,
    /// Width in pixels.
    pub width: usize,
    /// Height in pixels.
    pub height: usize,
    /// Whether its title bar is being dragged.
    pub is_dragging: bool,
    /// Whether it has the focus.
    pub is_focused: bool,
    /// Whether it is open.
    pub is_open: bool,
    /// Whether it fills the screen.
    pub is_maximized: bool,
    /// Left edge before maximising.
    pub prev_x: i32,
    /// Top edge before maximising.
    pub prev_y: i32,
    /// Width before maximising.
    pub prev_w: usize,
    /// Height before maximising.
    pub prev_h: usize,
    /// Whether it is sliding open or closed.
    pub is_animating: bool,
    /// Progress of the slide, 0 to 100.
    pub anim_progress: i32,
    /// Whether the slide opens it.
    pub anim_direction: bool,
}

/// Number of desktop window slots.
pub const WINDOW_SLOTS: usize = 4;

/// Number of occupied slots among the first `n`.
pub open spec fn some_count(ws: Seq<Option<Window>>, n: nat) -> nat
    decreases n,
{
    if n == 0 {
        0
    } else {
        some_count(ws, (n - 1) as nat) + if ws[n - 1] is Some {
            1nat
        } else {
            0nat
        }
    }
}

/// Whether slot `o` holds window `id`.
pub open spec fn holds_id(o: Option<Window>, id: u8) -> bool {
    match o {
        Some(w) => w.id == id,
        None => false,
    }
}

/// The first of the first `n` slots holding window `id`.
pub open spec fn find_id(ws: Seq<Option<Window>>, id: u8, n: nat) -> Option<int>
    decreases n,
{
    if n == 0 {
        None
    } else {
        match find_id(ws, id, (n - 1) as nat) {
            Some(i) => Some(i),
            None => if holds_id(ws[n - 1], id) {
                Some(n - 1)
            } else {
                None
            },
        }
    }
}

/// `w` given the focus; a closed window opens with its slide starting.
pub open spec fn raised(w: Window) -> Window {
    let f = Window { is_focused: true, is_dragging: false, ..w };
    if !w.is_open {
        Window { is_open: true, is_animating: true, anim_direction: true, anim_progress: 0, ..f }
    } else {
        f
    }
}

/// The window of slot `o` without the focus.
pub open spec fn lowered(o: Option<Window>) -> Option<Window> {
    match o {
        Some(w) => Some(Window { is_focused: false, is_dragging: false, ..w }),
        None => None,
    }
}

/// The slots after focusing window `id`: with `count` the occupied slots,
/// the first of the first `count` slots holding it moves to slot
/// `count - 1`, focused (and opened), the slots after it move down one,
/// and the windows below it lose the focus; nothing changes when no such
/// slot holds it.
pub open spec fn focused_slots(ws: Seq<Option<Window>>, id: u8) -> Seq<Option<Window>> {
    let count = some_count(ws, ws.len());
    match find_id(ws, id, count) {
        None => ws,
        Some(idx) => Seq::new(
            ws.len(),
            |j: int|
                if j < count - 1 {
                    lowered(
                        if j < idx {
                            ws[j]
                        } else {
                            ws[j + 1]
                        },
                    )
                } else if j == count - 1 {
                    Some(raised(ws[idx]->0))
                } else {
                    ws[j]
                },
        ),
    }
}

/// The counted slots are no more than the slots.
proof fn lemma_some_count_le(ws: Seq<Option<Window>>, n: nat)
    ensures
        some_count(ws, n) <= n,
    decreases n,
{
    if n > 0 {
        lemma_some_count_le(ws, (n - 1) as nat);
    }
}

/// A found slot holds the window and lies before the bound.
proof fn lemma_find_id(ws: Seq<Option<Window>>, id: u8, n: nat)
    ensures
        find_id(ws, id, n) matches Some(i) ==> (0 <= i < n && holds_id(ws[i], id)),
        find_id(ws, id, n) is None ==> forall|k: int| 0 <= k < n ==> !holds_id(#[trigger] ws[k], id),
    decreases n,
{
    if n > 0 {
        lemma_find_id(ws, id, (n - 1) as nat);
    }
}

/// Gives the focus to window `id` and brings it to the top of the stack;
/// see `focused_slots`.
pub fn focus_window_by_id(windows: &mut Vec<Option<Window>>, id: u8)
    requires
        old(windows)@.len() == WINDOW_SLOTS,
    ensures
        final(windows)@ == focused_slots(old(windows)@, id),
{
    let ghost w0 = windows@;
    let mut count: usize = 0;
    let mut i: usize = 0;
    while i < WINDOW_SLOTS
        invariant
            windows@ == w0,
            w0.len() == WINDOW_SLOTS,
            i <= WINDOW_SLOTS,
            count == some_count(w0, i as nat),
            count <= i,
        decreases WINDOW_SLOTS - i,
    {
        if windows[i].is_some() {
            count = count + 1;
        }
        i = i + 1;
    }
    let mut found_idx: Option<usize> = None;
    let mut k: usize = 0;
    while k < count
        invariant_except_break
            found_idx is None,
            find_id(w0, id, k as nat) is None,
        invariant
            windows@ == w0,
            w0.len() == WINDOW_SLOTS,
            count == some_count(w0, WINDOW_SLOTS as nat),
            count <= WINDOW_SLOTS,
            k <= count,
        ensures
            found_idx is None ==> find_id(w0, id, count as nat) is None,
            found_idx matches Some(f) ==> find_id(w0, id, count as nat) == Some(f as int),
        decreases count - k,
    {
        match windows[k] {
            Some(win) => {
                if win.id == id {
                    found_idx = Some(k);
                    proof {
                        assert(holds_id(w0[k as int], id));
                        assert(find_id(w0, id, (k + 1) as nat) == Some(k as int));
                        lemma_find_prefix(w0, id, (k + 1) as nat, count as nat);
                    }
                    break;
                }
            },
            None => {},
        }
        k = k + 1;
    }
    proof {
        lemma_find_id(w0, id, count as nat);
    }
    if let Some(idx) = found_idx {
        let mut win = windows[idx].unwrap();
        windows.set(idx, None);
        win.is_focused = true;
        win.is_dragging = false;
        if !win.is_open {
            win.is_open = true;
            win.is_animating = true;
            win.anim_direction = true;
            win.anim_progress = 0;
        }
        assert(win == raised(w0[idx as int]->0));
        let mut j: usize = idx;
        while j < count - 1
            invariant
                w0.len() == WINDOW_SLOTS,
                windows@.len() == WINDOW_SLOTS,
                1 <= count <= WINDOW_SLOTS,
                idx < count,
                idx <= j <= count - 1,
                forall|t: int| 0 <= t < idx ==> #[trigger] windows@[t] == w0[t],
                forall|t: int| idx <= t < j ==> #[trigger] windows@[t] == w0[t + 1],
                j == idx ==> windows@[j as int] is None,
                j > idx ==> windows@[j as int] is None,
                forall|t: int| j < t < WINDOW_SLOTS ==> #[trigger] windows@[t] == w0[t],
            decreases count - 1 - j,
        {
            let next = windows[j + 1];
            windows.set(j, next);
            windows.set(j + 1, None);
            j = j + 1;
        }
        let mut t: usize = 0;
        while t < count - 1
            invariant
                w0.len() == WINDOW_SLOTS,
                windows@.len() == WINDOW_SLOTS,
                1 <= count <= WINDOW_SLOTS,
                idx < count,
                t <= count - 1,
                forall|u: int| 0 <= u < t ==> #[trigger] windows@[u] == lowered(
                    if u < idx {
                        w0[u]
                    } else {
                        w0[u + 1]
                    },
                ),
                forall|u: int| t <= u < count - 1 ==> #[trigger] windows@[u] == (if u < idx {
                    w0[u]
                } else {
                    w0[u + 1]
                }),
                windows@[count - 1] is None,
                forall|u: int| count - 1 < u < WINDOW_SLOTS ==> #[trigger] windows@[u] == w0[u],
            decreases count - 1 - t,
        {
            match windows[t] {
                Some(w) => {
                    let mut w2 = w;
                    w2.is_focused = false;
                    w2.is_dragging = false;
                    windows.set(t, Some(w2));
                },
                None => {},
            }
            t = t + 1;
        }
        windows.set(count - 1, Some(win));
        proof {
            let fs = focused_slots(w0, id);
            assert(some_count(w0, w0.len()) == count);
            assert(find_id(w0, id, count as nat) == Some(idx as int));
            assert forall|j: int| 0 <= j < WINDOW_SLOTS implies #[trigger] windows@[j] == fs[j] by {
                if j < count - 1 {
                } else if j == count - 1 {
                } else {
                }
            }
            assert(windows@ =~= fs);
        }
    } else {
        assert(some_count(w0, w0.len()) == count);
        assert(windows@ =~= focused_slots(w0, id));
    }
}

/// A window found among the first `n` slots is the first one among more.
proof fn lemma_find_prefix(ws: Seq<Option<Window>>, id: u8, n: nat, m: nat)
    requires
        n <= m,
        find_id(ws, id, n) is Some,
    ensures
        find_id(ws, id, m) == find_id(ws, id, n),
    decreases m - n,
{
    if n < m {
        lemma_find_prefix(ws, id, n, (m - 1) as nat);
    }
}


/// The slots after the window `w`, taken from slot `idx` among the first
/// `count`, is put on top: the slots after `idx` move down one, the windows
/// below the top lose the focus and stop dragging, and `w` lands in slot
/// `count - 1`.
pub open spec fn raised_slots(ws: Seq<Option<Window>>, idx: int, count: int, w: Window) -> Seq<
    Option<Window>,
> {
    Seq::new(
        ws.len(),
        |j: int|
            if j < count - 1 {
                lowered(
                    if j < idx {
                        ws[j]
                    } else {
                        ws[j + 1]
                    },
                )
            } else if j == count - 1 {
                Some(w)
            } else {
                ws[j]
            },
    )
}

/// Takes the window out of slot `idx`, moves the slots above it down and
/// puts `w` on top of the first `count` slots; the others lose the focus.
fn raise_slot(windows: &mut Vec<Option<Window>>, idx: usize, count: usize, w: Window)
    requires
        old(windows)@.len() == WINDOW_SLOTS,
        idx < count <= WINDOW_SLOTS,
    ensures
        final(windows)@ == raised_slots(old(windows)@, idx as int, count as int, w),
{
    let ghost w0 = windows@;
    windows.set(idx, None);
    let mut j: usize = idx;
    while j < count - 1
        invariant
            w0.len() == WINDOW_SLOTS,
            windows@.len() == WINDOW_SLOTS,
            idx < count <= WINDOW_SLOTS,
            idx <= j <= count - 1,
            forall|t: int| 0 <= t < idx ==> #[trigger] windows@[t] == w0[t],
            forall|t: int| idx <= t < j ==> #[trigger] windows@[t] == w0[t + 1],
            windows@[j as int] is None,
            forall|t: int| j < t < WINDOW_SLOTS ==> #[trigger] windows@[t] == w0[t],
        decreases count - 1 - j,
    {
        let next = windows[j + 1];
        windows.set(j, next);
        windows.set(j + 1, None);
        j = j + 1;
    }
    let mut t: usize = 0;
    while t < count - 1
        invariant
            w0.len() == WINDOW_SLOTS,
            windows@.len() == WINDOW_SLOTS,
            idx < count <= WINDOW_SLOTS,
            t <= count - 1,
            forall|u: int| 0 <= u < t ==> #[trigger] windows@[u] == lowered(
                if u < idx {
                    w0[u]
                } else {
                    w0[u + 1]
                },
            ),
            forall|u: int| t <= u < count - 1 ==> #[trigger] windows@[u] == (if u < idx {
                w0[u]
            } else {
                w0[u + 1]
            }),
            windows@[count - 1] is None,
            forall|u: int| count - 1 < u < WINDOW_SLOTS ==> #[trigger] windows@[u] == w0[u],
        decreases count - 1 - t,
    {
        match windows[t] {
            Some(x) => {
                let mut x2 = x;
                x2.is_focused = false;
                x2.is_dragging = false;
                windows.set(t, Some(x2));
            },
            None => {},
        }
        t = t + 1;
    }
    windows.set(count - 1, Some(w));
    assert(windows@ =~= raised_slots(w0, idx as int, count as int, w));
}

/// The slots after the mouse button is released: no window is dragged.
pub open spec fn released_slots(ws: Seq<Option<Window>>) -> Seq<Option<Window>> {
    Seq::new(
        ws.len(),
        |j: int|
            match ws[j] {
                Some(w) => Some(Window { is_dragging: false, ..w }),
                None => None,
            },
    )
}

/// Releasing the mouse button stops every drag.
pub fn window_mouse_up(windows: &mut Vec<Option<Window>>)
    ensures
        final(windows)@ == released_slots(old(windows)@),
{
    let ghost w0 = windows@;
    let n = windows.len();
    let mut i: usize = 0;
    while i < n
        invariant
            n == w0.len(),
            windows@.len() == n,
            i <= n,
            forall|t: int| 0 <= t < i ==> #[trigger] windows@[t] == released_slots(w0)[t],
            forall|t: int| i <= t < n ==> #[trigger] windows@[t] == w0[t],
        decreases n - i,
    {
        match windows[i] {
            Some(w) => {
                let mut w2 = w;
                w2.is_dragging = false;
                windows.set(i, Some(w2));
            },
            None => {},
        }
        i = i + 1;
    }
    assert(windows@ =~= released_slots(w0));
}

/// A window moved by `(dx, dy)` stays within the coordinate range.
pub open spec fn drag_fits(ws: Seq<Option<Window>>, dx: i32, dy: i32) -> bool {
    forall|j: int|
        0 <= j < ws.len() ==> match #[trigger] ws[j] {
            Some(w) => w.is_dragging ==> i32::MIN <= w.x + dx <= i32::MAX && i32::MIN <= w.y + dy
                <= i32::MAX,
            None => true,
        }
}

/// The slots after the mouse moved by `(dx, dy)` with the button held:
/// every dragged window moves along.
pub open spec fn dragged_slots(ws: Seq<Option<Window>>, dx: i32, dy: i32) -> Seq<Option<Window>> {
    Seq::new(
        ws.len(),
        |j: int|
            match ws[j] {
                Some(w) => if w.is_dragging {
                    Some(Window { x: (w.x + dx) as i32, y: (w.y + dy) as i32, ..w })
                } else {
                    Some(w)
                },
                None => None,
            },
    )
}

/// Moving the mouse with the button held moves every dragged window by the
/// same amount.
pub fn window_mouse_drag(windows: &mut Vec<Option<Window>>, dx: i32, dy: i32)
    requires
        drag_fits(old(windows)@, dx, dy),
    ensures
        final(windows)@ == dragged_slots(old(windows)@, dx, dy),
{
    let ghost w0 = windows@;
    let n = windows.len();
    let mut i: usize = 0;
    while i < n
        invariant
            n == w0.len(),
            windows@.len() == n,
            i <= n,
            drag_fits(w0, dx, dy),
            forall|t: int| 0 <= t < i ==> #[trigger] windows@[t] == dragged_slots(w0, dx, dy)[t],
            forall|t: int| i <= t < n ==> #[trigger] windows@[t] == w0[t],
        decreases n - i,
    {
        match windows[i] {
            Some(w) => {
                if w.is_dragging {
                    assert(w0[i as int] == Some(w));
                    let mut w2 = w;
                    w2.x = w.x + dx;
                    w2.y = w.y + dy;
                    windows.set(i, Some(w2));
                }
            },
            None => {},
        }
        i = i + 1;
    }
    assert(windows@ =~= dragged_slots(w0, dx, dy));
}


/// The top edge at which window `w` is shown: `off` lower while it slides.
pub open spec fn shown_y(w: Window, off: i32) -> int {
    if w.is_animating {
        w.y + off
    } else {
        w.y as int
    }
}

/// The point lies in the title bar of `w`.
pub open spec fn in_title(w: Window, off: i32, cx: i32, cy: i32) -> bool {
    w.x <= cx < w.x + (w.width as i32) && shown_y(w, off) <= cy < shown_y(w, off) + 34
}

/// The point lies in the window `w`.
pub open spec fn in_body(w: Window, off: i32, cx: i32, cy: i32) -> bool {
    w.x <= cx < w.x + (w.width as i32) && shown_y(w, off) <= cy < shown_y(w, off) + (w.height as i32)
}

/// Slot `o` holds an open window under the point.
pub open spec fn hits(o: Option<Window>, off: i32, cx: i32, cy: i32) -> bool {
    match o {
        Some(w) => w.is_open && (in_title(w, off, cx, cy) || in_body(w, off, cx, cy)),
        None => false,
    }
}

/// The topmost of the first `n` slots whose window is under the point.
pub open spec fn top_hit(ws: Seq<Option<Window>>, offs: Seq<i32>, cx: i32, cy: i32, n: nat) -> Option<
    int,
>
    decreases n,
{
    if n == 0 {
        None
    } else if hits(ws[n - 1], offs[n - 1], cx, cy) {
        Some(n - 1)
    } else {
        top_hit(ws, offs, cx, cy, (n - 1) as nat)
    }
}

/// The slot found is one of the first `n` and holds a window under the
/// point.
proof fn lemma_top_hit(ws: Seq<Option<Window>>, offs: Seq<i32>, cx: i32, cy: i32, n: nat)
    ensures
        top_hit(ws, offs, cx, cy, n) matches Some(i) ==> (0 <= i < n && hits(ws[i], offs[i], cx, cy)),
    decreases n,
{
    if n > 0 {
        lemma_top_hit(ws, offs, cx, cy, (n - 1) as nat);
    }
}

/// The point lies on the 12-pixel title-bar button `left` pixels from the
/// left edge of `w`.
pub open spec fn on_button(w: Window, off: i32, cx: i32, cy: i32, left: int) -> bool {
    w.x + left <= cx < w.x + left + 12 && shown_y(w, off) + 11 <= cy < shown_y(w, off) + 23
}

/// `w` starting to slide shut.
pub open spec fn closing(w: Window) -> Window {
    Window { is_animating: true, anim_direction: false, anim_progress: 100, ..w }
}

/// `w` maximized to the screen above the dock, or restored to its former
/// place and size.
pub open spec fn toggled_max(w: Window, sw: i32, sh: i32) -> Window {
    if !w.is_maximized {
        Window {
            prev_x: w.x,
            prev_y: w.y,
            prev_w: w.width,
            prev_h: w.height,
            x: 0,
            y: 0,
            width: sw as usize,
            height: (sh - 52) as usize,
            is_maximized: true,
            ..w
        }
    } else {
        Window {
            x: w.prev_x,
            y: w.prev_y,
            width: w.prev_w,
            height: w.prev_h,
            is_maximized: false,
            ..w
        }
    }
}

/// What a press on window `w` does to it, and whether a drag starts: the
/// close button (left), then maximize (right), then minimize (middle) act on
/// the window; the rest of the title bar starts a drag unless the window is
/// maximized; the body only raises it.
pub open spec fn pressed(w: Window, off: i32, cx: i32, cy: i32, sw: i32, sh: i32) -> (Window, bool) {
    if in_title(w, off, cx, cy) {
        if on_button(w, off, cx, cy, 16) {
            (closing(w), false)
        } else if on_button(w, off, cx, cy, 52) {
            (toggled_max(w, sw, sh), false)
        } else if on_button(w, off, cx, cy, 34) {
            (closing(w), false)
        } else {
            (w, !w.is_maximized)
        }
    } else {
        (w, false)
    }
}

/// The desktop icon under the point, by the window it opens.
pub open spec fn icon_at(cx: i32, cy: i32) -> Option<u8> {
    if 40 <= cx < 72 {
        if 40 <= cy < 72 {
            Some(2u8)
        } else if 120 <= cy < 152 {
            Some(1u8)
        } else if 200 <= cy < 232 {
            Some(0u8)
        } else {
            None
        }
    } else {
        None
    }
}

/// The first `count` slots without focus or drag.
pub open spec fn all_lowered(ws: Seq<Option<Window>>, count: int) -> Seq<Option<Window>> {
    Seq::new(ws.len(), |j: int| if j < count { lowered(ws[j]) } else { ws[j] })
}

/// The slots after a press of the mouse button at `(cx, cy)` outside the
/// dock and the start menu, where `offs[i]` is how far the window of slot
/// `i` is shown below its place while it slides: the topmost open window
/// under the point is pressed (see `pressed`), focused and put on top;
/// a press on the background takes the focus from every window and opens
/// the window of a desktop icon under the point.
pub open spec fn pressed_slots(
    ws: Seq<Option<Window>>,
    offs: Seq<i32>,
    cx: i32,
    cy: i32,
    sw: i32,
    sh: i32,
) -> Seq<Option<Window>> {
    let count = some_count(ws, ws.len());
    match top_hit(ws, offs, cx, cy, count) {
        Some(i) => {
            let (w, drag) = pressed(ws[i]->0, offs[i], cx, cy, sw, sh);
            raised_slots(
                ws,
                i,
                count as int,
                Window { is_focused: true, is_dragging: w.is_dragging || drag, ..w },
            )
        },
        None => {
            let lw = all_lowered(ws, count as int);
            match icon_at(cx, cy) {
                Some(id) => focused_slots(lw, id),
                None => lw,
            }
        },
    }
}

/// The shown top edge of `w`.
fn shown_top(w: &Window, off: i32) -> (y: i64)
    ensures
        y == shown_y(*w, off),
{
    if w.is_animating {
        w.y as i64 + off as i64
    } else {
        w.y as i64
    }
}

/// Whether slot `o` holds an open window under the point.
fn slot_hit(o: &Option<Window>, off: i32, cx: i32, cy: i32) -> (b: bool)
    ensures
        b == hits(*o, off, cx, cy),
{
    match o {
        Some(w) => {
            let ay = shown_top(w, off);
            let x0 = w.x as i64;
            let x1 = x0 + (w.width as i32) as i64;
            let in_x = x0 <= cx as i64 && (cx as i64) < x1;
            let in_t = in_x && ay <= cy as i64 && (cy as i64) < ay + 34;
            let in_b = in_x && ay <= cy as i64 && (cy as i64) < ay + (w.height as i32) as i64;
            w.is_open && (in_t || in_b)
        },
        None => false,
    }
}

/// Whether the point is on the title-bar button `left` pixels in.
fn on_button_exec(w: &Window, off: i32, cx: i32, cy: i32, left: i64) -> (b: bool)
    requires
        0 <= left <= 64,
    ensures
        b == on_button(*w, off, cx, cy, left as int),
{
    let ay = shown_top(w, off);
    let x0 = w.x as i64 + left;
    x0 <= cx as i64 && (cx as i64) < x0 + 12 && ay + 11 <= cy as i64 && (cy as i64) < ay + 23
}

/// Handles a press of the mouse button at `(cx, cy)` outside the dock and
/// the start menu; see `pressed_slots`.
pub fn window_mouse_down(
    windows: &mut Vec<Option<Window>>,
    offsets: &Vec<i32>,
    cx: i32,
    cy: i32,
    sw: i32,
    sh: i32,
)
    requires
        old(windows)@.len() == WINDOW_SLOTS,
        offsets@.len() == WINDOW_SLOTS,
    ensures
        final(windows)@ == pressed_slots(old(windows)@, offsets@, cx, cy, sw, sh),
{
    let ghost w0 = windows@;
    let mut count: usize = 0;
    let mut i: usize = 0;
    while i < WINDOW_SLOTS
        invariant
            windows@ == w0,
            w0.len() == WINDOW_SLOTS,
            i <= WINDOW_SLOTS,
            count == some_count(w0, i as nat),
            count <= i,
        decreases WINDOW_SLOTS - i,
    {
        if windows[i].is_some() {
            count = count + 1;
        }
        i = i + 1;
    }
    assert(some_count(w0, w0.len()) == count);
    let mut k: usize = count;
    let mut found: Option<usize> = None;
    while k > 0
        invariant_except_break
            found is None,
            top_hit(w0, offsets@, cx, cy, count as nat) == top_hit(w0, offsets@, cx, cy, k as nat),
        invariant
            windows@ == w0,
            w0.len() == WINDOW_SLOTS,
            offsets@.len() == WINDOW_SLOTS,
            count <= WINDOW_SLOTS,
            k <= count,
        ensures
            found is None ==> top_hit(w0, offsets@, cx, cy, count as nat) is None,
            found matches Some(f) ==> top_hit(w0, offsets@, cx, cy, count as nat) == Some(f as int),
        decreases k,
    {
        k = k - 1;
        if slot_hit(&windows[k], offsets[k], cx, cy) {
            found = Some(k);
            break;
        }
    }
    proof {
        lemma_top_hit(w0, offsets@, cx, cy, count as nat);
    }
    match found {
        Some(idx) => {
            let w = windows[idx].unwrap();
            let off = offsets[idx];
            let mut nw = w;
            let mut drag = false;
            let ay = shown_top(&w, off);
            let x0 = w.x as i64;
            let in_t = x0 <= cx as i64 && (cx as i64) < x0 + (w.width as i32) as i64 && ay <= cy as i64
                && (cy as i64) < ay + 34;
            if in_t {
                if on_button_exec(&w, off, cx, cy, 16) {
                    nw.is_animating = true;
                    nw.anim_direction = false;
                    nw.anim_progress = 100;
                } else if on_button_exec(&w, off, cx, cy, 52) {
                    if !w.is_maximized {
                        nw.prev_x = w.x;
                        nw.prev_y = w.y;
                        nw.prev_w = w.width;
                        nw.prev_h = w.height;
                        nw.x = 0;
                        nw.y = 0;
                        nw.width = sw as usize;
                        nw.height = ((sh as i64) - 52) as usize;
                        nw.is_maximized = true;
                    } else {
                        nw.x = w.prev_x;
                        nw.y = w.prev_y;
                        nw.width = w.prev_w;
                        nw.height = w.prev_h;
                        nw.is_maximized = false;
                    }
                } else if on_button_exec(&w, off, cx, cy, 34) {
                    nw.is_animating = true;
                    nw.anim_direction = false;
                    nw.anim_progress = 100;
                } else {
                    drag = !w.is_maximized;
                }
            }
            proof {
                assert(in_t == in_title(w, off, cx, cy));
                assert((nw, drag) == pressed(w, off, cx, cy, sw, sh));
            }
            nw.is_focused = true;
            if drag {
                nw.is_dragging = true;
            }
            raise_slot(windows, idx, count, nw);
        },
        None => {
            let mut t: usize = 0;
            while t < count
                invariant
                    w0.len() == WINDOW_SLOTS,
                    windows@.len() == WINDOW_SLOTS,
                    count <= WINDOW_SLOTS,
                    t <= count,
                    forall|u: int| 0 <= u < t ==> #[trigger] windows@[u] == lowered(w0[u]),
                    forall|u: int| t <= u < WINDOW_SLOTS ==> #[trigger] windows@[u] == w0[u],
                decreases count - t,
            {
                match windows[t] {
                    Some(x) => {
                        let mut x2 = x;
                        x2.is_focused = false;
                        x2.is_dragging = false;
                        windows.set(t, Some(x2));
                    },
                    None => {},
                }
                t = t + 1;
            }
            assert(windows@ =~= all_lowered(w0, count as int));
            if cx >= 40 && cx < 72 {
                if cy >= 40 && cy < 72 {
                    focus_window_by_id(windows, 2);
                } else if cy >= 120 && cy < 152 {
                    focus_window_by_id(windows, 1);
                } else if cy >= 200 && cy < 232 {
                    focus_window_by_id(windows, 0);
                }
            }
        },
    }
}


/// Whether the point lies in the title bar of `win`, shown `off` pixels
/// below its place while it slides.
pub fn hit_test_title(win: &Window, off: i32, mx: i32, my: i32) -> (b: bool)
    ensures
        b == in_title(*win, off, mx, my),
{
    let ay = shown_top(win, off);
    let x0 = win.x as i64;
    x0 <= mx as i64 && (mx as i64) < x0 + (win.width as i32) as i64 && ay <= my as i64 && (my as i64)
        < ay + 34
}

/// Whether the point lies in `win`, shown `off` pixels below its place
/// while it slides.
pub fn hit_test_body(win: &Window, off: i32, mx: i32, my: i32) -> (b: bool)
    ensures
        b == in_body(*win, off, mx, my),
{
    let ay = shown_top(win, off);
    let x0 = win.x as i64;
    x0 <= mx as i64 && (mx as i64) < x0 + (win.width as i32) as i64 && ay <= my as i64 && (my as i64)
        < ay + (win.height as i32) as i64
}

} // verus!
