use rustanium::window::{format_ticks, Color, Window, WindowManager};

fn same(a: Color, b: Color) -> bool {
    a.r == b.r && a.g == b.g && a.b == b.b
}

#[test]
fn new_window_is_filled_with_the_panel_background() {
    let w = Window::new(4, "T", 0, 0, 10, 5);
    assert_eq!(w.buffer.len(), 50);
    assert!(w.buffer.iter().all(|c| same(*c, Color::new(24, 28, 34))));
    assert!(!w.is_active);
}

#[test]
fn pixels_outside_the_canvas_are_ignored() {
    let mut w = Window::new(0, "T", 0, 0, 4, 3);
    let red = Color::new(255, 0, 0);
    w.write_pixel(2, 1, red);
    assert!(same(w.buffer[1 * 4 + 2], red));
    w.write_pixel(4, 0, red);
    w.write_pixel(-1, 0, red);
    w.write_pixel(0, 3, red);
    assert_eq!(w.buffer.iter().filter(|c| same(**c, red)).count(), 1);
}

#[test]
fn rectangles_borders_and_clear() {
    let mut w = Window::new(0, "T", 0, 0, 6, 6);
    let c = Color::new(1, 2, 3);
    w.draw_rect(4, 4, 5, 5, c);
    assert_eq!(w.buffer.iter().filter(|p| same(**p, c)).count(), 4);
    let b = Color::new(9, 9, 9);
    w.draw_border_rect(0, 0, 6, 6, b);
    assert_eq!(w.buffer.iter().filter(|p| same(**p, b)).count(), 20);
    w.clear(c);
    assert!(w.buffer.iter().all(|p| same(*p, c)));
}

#[test]
fn glyphs_and_strings() {
    let mut w = Window::new(0, "T", 0, 0, 24, 8);
    let c = Color::new(200, 0, 0);
    w.draw_char(0, 0, 'I', c);
    let lit: Vec<usize> = (0..8).filter(|col| same(w.buffer[*col], c)).collect();
    assert_eq!(lit, vec![2, 3, 4, 5, 6]);
    let before = w.buffer.clone();
    w.draw_char(8, 0, '\u{2605}', c);
    assert!(w.buffer.iter().zip(before.iter()).all(|(a, b)| same(*a, *b)));
    let mut v = Window::new(0, "T", 0, 0, 24, 8);
    v.draw_string(0, 0, "II", c);
    assert!(same(v.buffer[8 + 2], c));
    assert!(!same(v.buffer[8 + 1], c));
}

#[test]
fn counters_are_rendered_in_decimal() {
    assert_eq!(format_ticks(0), "0");
    assert_eq!(format_ticks(42), "42");
    assert_eq!(format_ticks(1024), "1024");
    assert_eq!(format_ticks(1_000_000_000_000_001), "000000000000001");
}

#[test]
fn manager_starts_with_three_windows() {
    let wm = WindowManager::new();
    let ids: Vec<usize> = wm.windows.iter().map(|w| w.id).collect();
    assert_eq!(ids, vec![2, 0, 1]);
    assert!(wm.windows[2].is_active);
    assert!(!wm.is_dragging);
}

#[test]
fn dragging_a_title_bar_raises_and_moves_the_window() {
    let mut wm = WindowManager::new();
    wm.handle_mouse(200, 90, true);
    assert!(wm.is_dragging);
    assert_eq!(wm.windows[2].id, 0);
    assert!(wm.windows[2].is_active);
    assert!(!wm.windows[1].is_active);
    assert_eq!(wm.drag_offset_x, 120);
    assert_eq!(wm.drag_offset_y, -10);
    wm.handle_mouse(300, 10, true);
    assert_eq!(wm.windows[2].x, 180);
    assert_eq!(wm.windows[2].y, 73);
    wm.handle_mouse(5000, 5000, true);
    assert_eq!(wm.windows[2].x, 1230);
    assert_eq!(wm.windows[2].y, 450);
    wm.handle_mouse(0, 0, false);
    assert!(!wm.is_dragging);
    assert_eq!(wm.active_window_idx, None);
}

#[test]
fn clicking_a_client_area_only_focuses() {
    let mut wm = WindowManager::new();
    wm.handle_mouse(200, 400, true);
    assert!(!wm.is_dragging);
    assert_eq!(wm.windows[2].id, 2);
    assert!(wm.windows[2].is_active);
    wm.handle_mouse(5, 5, true);
    assert_eq!(wm.windows[2].id, 2);
}

#[test]
fn telemetry_window_draws_a_progress_bar() {
    let mut w = Window::new(0, "SYSTEM TELEMETRY", 0, 0, 320, 160);
    w.render_window_contents(400, None, &[]);
    let green = Color::new(32, 223, 127);
    let dark = Color::new(13, 15, 18);
    // (400 / 4) % (320 - 48) = 100 pixels of bar in row 126, from column 24.
    assert!(same(w.buffer[126 * 320 + 24], green));
    assert!(same(w.buffer[126 * 320 + 123], green));
    assert!(same(w.buffer[126 * 320 + 124], dark));
    // The frame.
    assert!(same(w.buffer[0], Color::new(40, 45, 55)));
    assert!(same(w.buffer[159 * 320 + 319], Color::new(40, 45, 55)));
}

#[test]
fn log_window_shows_the_last_seven_lines() {
    let mut w = Window::new(1, "LOGS", 0, 0, 380, 200);
    let logs: Vec<String> = (0..9).map(|i| format!("line {}", i)).collect();
    w.render_window_contents(0, None, &logs);
    let white = Color::new(243, 244, 246);
    // Seven lines from row 42, 18 rows apart; nothing is drawn below the last.
    let drawn_rows: Vec<usize> = (40..200)
        .filter(|y| (24..340).any(|x| same(w.buffer[y * 380 + x], white)))
        .collect();
    assert!(drawn_rows.iter().all(|y| *y < 42 + 7 * 18));
    assert!(drawn_rows.iter().any(|y| *y >= 42 + 6 * 18));
    let mut unknown = Window::new(1, "LOGS", 0, 0, 380, 200);
    unknown.render_window_contents(0, None, &["Unknown command".to_string()]);
    let red = Color::new(255, 60, 60);
    assert!(unknown.buffer.iter().any(|c| same(*c, red)));
}

#[test]
fn radar_window_and_other_windows() {
    let mut w = Window::new(2, "RADAR", 0, 0, 280, 140);
    w.render_window_contents(200, None, &[]);
    let green = Color::new(32, 223, 127);
    assert!((102..110).any(|y| (24..200).any(|x| same(w.buffer[y * 280 + x], green))));
    let mut plain = Window::new(7, "X", 0, 0, 10, 10);
    plain.render_window_contents(5, None, &[]);
    let frame = Color::new(40, 45, 55);
    assert_eq!(plain.buffer.iter().filter(|c| same(**c, frame)).count(), 36);
}
