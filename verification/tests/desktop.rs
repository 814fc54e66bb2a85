use rustanium::desktop::{focus_window_by_id, window_mouse_down, window_mouse_drag, window_mouse_up, Window};

fn win(id: u8, open: bool) -> Window {
    Window {
        id,
        title: "Win",
        x: 10,
        y: 20,
        width: 100,
        height: 80,
        is_dragging: true,
        is_focused: true,
        is_open: open,
        is_maximized: false,
        prev_x: 0,
        prev_y: 0,
        prev_w: 0,
        prev_h: 0,
        is_animating: false,
        anim_progress: 100,
        anim_direction: false,
    }
}

fn ids(ws: &Vec<Option<Window>>) -> Vec<Option<u8>> {
    ws.iter().map(|o| o.map(|w| w.id)).collect()
}

#[test]
fn focus_moves_window_to_top() {
    let mut ws = vec![Some(win(1, true)), Some(win(2, true)), Some(win(3, true)), None];
    focus_window_by_id(&mut ws, 1);
    assert_eq!(ids(&ws), vec![Some(2), Some(3), Some(1), None]);
    let top = ws[2].unwrap();
    assert!(top.is_focused && !top.is_dragging);
    for k in 0..2 {
        let w = ws[k].unwrap();
        assert!(!w.is_focused && !w.is_dragging);
    }
}

#[test]
fn focus_opens_closed_window_with_slide() {
    let mut ws = vec![Some(win(1, true)), Some(win(2, false)), None, None];
    focus_window_by_id(&mut ws, 2);
    assert_eq!(ids(&ws), vec![Some(1), Some(2), None, None]);
    let top = ws[1].unwrap();
    assert!(top.is_open && top.is_animating && top.anim_direction);
    assert_eq!(top.anim_progress, 0);
    assert!(!ws[0].unwrap().is_focused);
}

#[test]
fn focus_unknown_window_changes_nothing() {
    let mut ws = vec![Some(win(1, true)), Some(win(2, true)), None, None];
    focus_window_by_id(&mut ws, 9);
    assert_eq!(ids(&ws), vec![Some(1), Some(2), None, None]);
    assert!(ws[0].unwrap().is_focused && ws[0].unwrap().is_dragging);
}

fn placed(id: u8, x: i32, y: i32) -> Window {
    let mut w = win(id, true);
    w.x = x;
    w.y = y;
    w.is_dragging = false;
    w.is_focused = false;
    w
}

#[test]
fn press_on_title_raises_and_starts_drag() {
    let mut ws = vec![Some(placed(0, 100, 60)), Some(placed(2, 150, 80)), None, None];
    let offs = vec![0, 0, 0, 0];
    // title bar of window 0, away from its buttons and outside window 2
    window_mouse_down(&mut ws, &offs, 120, 70, 1280, 720);
    assert_eq!(ids(&ws), vec![Some(2), Some(0), None, None]);
    let top = ws[1].unwrap();
    assert!(top.is_focused && top.is_dragging);
    window_mouse_drag(&mut ws, 5, -3);
    assert_eq!((ws[1].unwrap().x, ws[1].unwrap().y), (105, 57));
    assert_eq!((ws[0].unwrap().x, ws[0].unwrap().y), (150, 80));
    window_mouse_up(&mut ws);
    assert!(!ws[1].unwrap().is_dragging);
}

#[test]
fn close_button_starts_closing_slide() {
    let mut ws = vec![Some(placed(0, 100, 60)), None, None, None];
    let offs = vec![0, 0, 0, 0];
    window_mouse_down(&mut ws, &offs, 120, 75, 1280, 720);
    let w = ws[0].unwrap();
    assert!(w.is_animating && !w.anim_direction && w.is_focused && !w.is_dragging);
    assert_eq!(w.anim_progress, 100);
}

#[test]
fn maximize_button_fills_screen_and_restores() {
    let mut ws = vec![Some(placed(0, 100, 60)), None, None, None];
    let offs = vec![0, 0, 0, 0];
    window_mouse_down(&mut ws, &offs, 156, 75, 1280, 720);
    let w = ws[0].unwrap();
    assert!(w.is_maximized);
    assert_eq!((w.x, w.y, w.width, w.height), (0, 0, 1280, 668));
    window_mouse_down(&mut ws, &offs, 56, 15, 1280, 720);
    let w = ws[0].unwrap();
    assert!(!w.is_maximized);
    assert_eq!((w.x, w.y, w.width, w.height), (100, 60, 100, 80));
}

#[test]
fn press_on_background_unfocuses_and_icon_opens_window() {
    let mut ws = vec![Some(placed(2, 600, 400)), Some(win(1, false)), None, None];
    ws[0].as_mut().unwrap().is_focused = true;
    let offs = vec![0, 0, 0, 0];
    window_mouse_down(&mut ws, &offs, 50, 130, 1280, 720);
    assert_eq!(ids(&ws), vec![Some(2), Some(1), None, None]);
    assert!(!ws[0].unwrap().is_focused);
    let top = ws[1].unwrap();
    assert!(top.is_focused && top.is_open && top.is_animating);
}
