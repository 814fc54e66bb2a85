use rustanium::framebuffer::{GraphicsWriter, PixelFormat, UefiGraphics};
use rustanium::window::Color;

const BG: Color = Color { r: 13, g: 15, b: 18 };

fn screen(w: usize, h: usize, format: PixelFormat) -> UefiGraphics {
    UefiGraphics::new(vec![0u8; w * h * 4], w, h, w, 4, format)
}

fn key(c: Color) -> (u8, u8, u8) {
    (c.r, c.g, c.b)
}

fn snap(g: &UefiGraphics) -> Vec<(u8, u8, u8)> {
    g.backbuffer.iter().map(|c| key(*c)).collect()
}

fn at(g: &UefiGraphics, x: usize, y: usize) -> (u8, u8, u8) {
    key(g.read_pixel(x, y))
}

fn lit(g: &UefiGraphics, c: Color) -> Vec<(usize, usize)> {
    let mut v = Vec::new();
    for y in 0..g.height {
        for x in 0..g.width {
            if at(g, x, y) == key(c) {
                v.push((x, y));
            }
        }
    }
    v
}

#[test]
fn new_driver_is_background_and_clean() {
    let g = screen(5, 4, PixelFormat::Bgr);
    assert_eq!(g.backbuffer.len(), 20);
    assert!(g.backbuffer.iter().all(|c| key(*c) == key(BG)));
    assert_eq!((g.dirty_x1, g.dirty_y1, g.dirty_x2, g.dirty_y2), (usize::MAX, usize::MAX, 0, 0));
    assert!(!g.mouse_saved);
    assert_eq!(g.mouse_backbuffer.len(), 144);
}

#[test]
fn write_pixel_grows_the_dirty_box_and_ignores_off_screen() {
    let mut g = screen(10, 8, PixelFormat::Bgr);
    let red = Color::new(200, 1, 2);
    g.write_pixel(3, 5, red);
    g.write_pixel(7, 2, red);
    g.write_pixel(10, 0, red);
    g.write_pixel(0, 8, red);
    assert_eq!(at(&g, 3, 5), key(red));
    assert_eq!(at(&g, 7, 2), key(red));
    assert_eq!((g.dirty_x1, g.dirty_y1, g.dirty_x2, g.dirty_y2), (3, 2, 7, 5));
    assert_eq!(lit(&g, red).len(), 2);
    assert_eq!(at(&g, 50, 50), key(BG));
}

#[test]
fn draw_rect_clips_at_the_edges() {
    let mut g = screen(6, 5, PixelFormat::Rgb);
    let c = Color::new(1, 2, 3);
    g.draw_rect(4, 3, 5, 5, c);
    assert_eq!(lit(&g, c), vec![(4, 3), (5, 3), (4, 4), (5, 4)]);
}

#[test]
fn border_rect_has_a_frame_and_a_filled_inside() {
    let mut g = screen(8, 8, PixelFormat::Rgb);
    let border = Color::new(9, 9, 9);
    let inside = Color::new(4, 4, 4);
    g.draw_border_rect(1, 1, 4, 3, border, inside);
    assert_eq!(lit(&g, inside), vec![(2, 2), (3, 2)]);
    assert_eq!(lit(&g, border).len(), 10);
    assert_eq!(at(&g, 1, 1), key(border));
    assert_eq!(at(&g, 4, 3), key(border));
}

#[test]
fn clear_fills_everything_and_forgets_the_cursor_area() {
    let mut g = screen(4, 4, PixelFormat::Bgr);
    g.save_mouse_backbuffer(0, 0);
    assert!(g.mouse_saved);
    let c = Color::new(7, 7, 7);
    g.clear(c);
    assert_eq!(lit(&g, c).len(), 16);
    assert!(!g.mouse_saved);
}

#[test]
fn cursor_save_draw_restore_leaves_no_trace() {
    let mut g = screen(20, 20, PixelFormat::Bgr);
    let c = Color::new(50, 60, 70);
    g.draw_rect(0, 0, 20, 20, c);
    g.write_pixel(6, 6, Color::new(1, 1, 1));
    let before = snap(&g);
    g.save_mouse_backbuffer(3, 4);
    g.draw_cursor(3, 4);
    assert_eq!(at(&g, 3, 4), key(Color::new(0, 245, 255)));
    assert_eq!(at(&g, 4, 6), key(Color::new(255, 0, 160)));
    assert_ne!(snap(&g), before);
    g.restore_mouse_backbuffer();
    assert_eq!(snap(&g), before);
    assert!(!g.mouse_saved);
}

#[test]
fn restore_without_save_does_nothing() {
    let mut g = screen(6, 6, PixelFormat::Bgr);
    let before = snap(&g);
    g.restore_mouse_backbuffer();
    assert_eq!(snap(&g), before);
}

#[test]
fn swap_buffers_copies_the_dirty_box_in_bgr() {
    let mut g = screen(4, 3, PixelFormat::Bgr);
    g.write_pixel(1, 2, Color::new(10, 20, 30));
    g.swap_buffers();
    let off = (2 * 4 + 1) * 4;
    assert_eq!(&g.buffer[off..off + 3], &[30, 20, 10]);
    assert_eq!(g.buffer.iter().filter(|b| **b != 0).count(), 3);
    assert_eq!((g.dirty_x1, g.dirty_y1, g.dirty_x2, g.dirty_y2), (usize::MAX, usize::MAX, 0, 0));
}

#[test]
fn swap_buffers_in_rgb_and_grey() {
    let mut g = screen(4, 3, PixelFormat::Rgb);
    g.write_pixel(0, 0, Color::new(10, 20, 30));
    g.swap_buffers();
    assert_eq!(&g.buffer[0..3], &[10, 20, 30]);
    let mut h = screen(4, 3, PixelFormat::U8);
    h.write_pixel(3, 1, Color::new(10, 20, 30));
    h.swap_buffers();
    let off = (4 + 3) * 4;
    assert_eq!(h.buffer[off], 10);
    assert_eq!(h.buffer[off + 1], 0);
}

#[test]
fn swap_buffers_copies_the_whole_box_between_writes() {
    let mut g = screen(4, 4, PixelFormat::Rgb);
    g.write_pixel(0, 0, Color::new(1, 1, 1));
    g.write_pixel(2, 2, Color::new(2, 2, 2));
    g.swap_buffers();
    // pixel (1, 1) lies in the box: it is copied with the background colour
    let off = (4 + 1) * 4;
    assert_eq!(&g.buffer[off..off + 3], &[13, 15, 18]);
    // pixel (3, 3) lies outside it
    let out = (3 * 4 + 3) * 4;
    assert_eq!(&g.buffer[out..out + 3], &[0, 0, 0]);
}

#[test]
fn swap_buffers_with_nothing_dirty_leaves_memory_alone() {
    let mut g = screen(4, 4, PixelFormat::Rgb);
    g.swap_buffers();
    assert!(g.buffer.iter().all(|b| *b == 0));
}

#[test]
fn draw_char_follows_the_glyph_bits() {
    let mut g = screen(16, 16, PixelFormat::Rgb);
    let c = Color::new(200, 200, 200);
    // '-' is one row 0x7e at row 3: six pixels from column 1
    g.draw_char(2, 2, '-', c, None, 1);
    assert_eq!(lit(&g, c), vec![(3, 5), (4, 5), (5, 5), (6, 5), (7, 5), (8, 5)]);
}

#[test]
fn draw_char_with_background_fills_the_cell() {
    let mut g = screen(16, 16, PixelFormat::Rgb);
    let c = Color::new(200, 200, 200);
    let b = Color::new(1, 2, 3);
    g.draw_char(0, 0, '-', c, Some(b), 1);
    assert_eq!(lit(&g, c).len(), 6);
    assert_eq!(lit(&g, b).len(), 58);
}

#[test]
fn draw_char_scales_each_bit() {
    let mut g = screen(24, 24, PixelFormat::Rgb);
    let c = Color::new(200, 200, 200);
    g.draw_char(0, 0, '-', c, None, 2);
    assert_eq!(lit(&g, c).len(), 24);
    assert_eq!(at(&g, 2, 6), key(c));
    assert_eq!(at(&g, 13, 7), key(c));
    assert_eq!(at(&g, 14, 6), key(BG));
}

#[test]
fn draw_char_takes_the_code_modulo_128() {
    let mut a = screen(16, 16, PixelFormat::Rgb);
    let mut b = screen(16, 16, PixelFormat::Rgb);
    let c = Color::new(200, 200, 200);
    a.draw_char(0, 0, 'A', c, None, 1);
    b.draw_char(0, 0, char::from_u32(0x41 + 0x80).unwrap(), c, None, 1);
    assert_eq!(snap(&a), snap(&b));
}

#[test]
fn draw_string_stops_before_the_screen_edge() {
    let mut g = screen(30, 10, PixelFormat::Rgb);
    let c = Color::new(200, 200, 200);
    let b = Color::new(1, 2, 3);
    // glyphs at 0, 9, 18: the third would end at 26 < 30; a fourth at 27 would not
    g.draw_string(0, 0, "----", c, Some(b), 1);
    assert_eq!(lit(&g, c).len(), 18);
    assert_eq!(at(&g, 27, 3), key(BG));
    assert_eq!(at(&g, 19, 3), key(c));
}

use rustanium::kernel_core::SystemCore;
use rustanium::threads::Scheduler;

fn big() -> UefiGraphics {
    UefiGraphics::new(vec![0u8; 1280 * 720 * 4], 1280, 720, 1280, 4, PixelFormat::Bgr)
}

#[test]
fn memory_grid_without_a_core_shows_free_frames() {
    let mut g = big();
    g.draw_dashboard_memory_grid(None, true);
    // a free frame: green frame, card-coloured inside
    assert_eq!(at(&g, 60, 310), (16, 124, 65));
    assert_eq!(at(&g, 75, 325), (16, 124, 65));
    assert_eq!(at(&g, 61, 311), (24, 28, 34));
    // the last cell, row 7 column 7
    assert_eq!(at(&g, 60 + 7 * 22, 310 + 7 * 22), (16, 124, 65));
    // the legend's quarantine swatch
    assert_eq!(at(&g, 265, 395), (239, 68, 68));
}

#[test]
fn memory_grid_colours_frames_by_owner_and_health() {
    let mut g = big();
    let mut core = SystemCore::bootstrap();
    core.inject_memory_flip(5, 0, 0).unwrap();
    g.draw_dashboard_memory_grid(Some(&core), false);
    assert_eq!(at(&g, 60, 310), (0, 150, 255));
    assert_eq!(at(&g, 82, 310), (147, 51, 234));
    assert_eq!(at(&g, 104, 310), (32, 223, 127));
    // frames written by the file system at boot belong to no process of the three
    assert_eq!(at(&g, 126, 310), (236, 72, 153));
    // a frame beyond those in use is free
    assert_eq!(at(&g, 60 + 7 * 22, 310 + 7 * 22), (16, 124, 65));
    // the update leaves the legend area alone
    assert_eq!(at(&g, 265, 395), (13, 15, 18));
}

#[test]
fn memory_grid_marks_quarantined_and_recovered_frames() {
    let mut g = big();
    let mut core = SystemCore::bootstrap();
    core.allocator.frames[9].status = rustanium::allocator::PageStatus::Quarantined;
    core.allocator.frames[10].status = rustanium::allocator::PageStatus::Recovered { corrected_count: 1 };
    g.draw_dashboard_memory_grid(Some(&core), false);
    assert_eq!(at(&g, 60 + 22, 310 + 22), (239, 68, 68));
    assert_eq!(at(&g, 60 + 2 * 22, 310 + 22), (245, 158, 11));
}

#[test]
fn scheduler_rows_show_load_bars() {
    let mut g = big();
    let mut sched = Scheduler::new();
    sched.register_main_thread();
    g.draw_dashboard_scheduler_metrics(None, &sched, 0, true);
    // row 0: load 6 % fills 7 of the 120 pixels of the track, in blue
    assert_eq!(at(&g, 916, 312), (0, 150, 255));
    assert_eq!(at(&g, 917, 312), (13, 15, 18));
    // row 1: load 18 % fills 21 pixels, in green
    assert_eq!(at(&g, 930, 347), (32, 223, 127));
    assert_eq!(at(&g, 931, 347), (13, 15, 18));
    // row 3 without a user thread has no bar
    assert_eq!(at(&g, 910, 417), (13, 15, 18));
}

#[test]
fn navigation_tabs_mark_the_active_view() {
    let mut g = big();
    g.draw_navigation_tabs(true);
    assert_eq!(at(&g, 60, 550), (0, 150, 255));
    assert_eq!(at(&g, 280, 550), (80, 85, 95));
    assert_eq!(at(&g, 281, 551), (24, 28, 34));
    g.draw_navigation_tabs(false);
    assert_eq!(at(&g, 60, 550), (80, 85, 95));
    assert_eq!(at(&g, 280, 550), (147, 51, 234));
    g.draw_navigation_tabs_desktop();
    assert_eq!(at(&g, 540, 610), (255, 0, 160));
    assert_eq!(at(&g, 60, 610), (80, 85, 95));
}

#[test]
fn keyboard_prompt_clears_its_line() {
    let mut g = big();
    g.draw_rect(60, 530, 1160, 12, Color::new(1, 1, 1));
    g.update_keyboard_prompt("-");
    assert_eq!(at(&g, 60, 530), (13, 15, 18));
    // '-' sets row 3, columns 1 to 6
    assert_eq!(at(&g, 61, 533), (32, 223, 127));
    assert_eq!(at(&g, 1219, 541), (13, 15, 18));
}

#[test]
fn dashboard_layout_and_update() {
    let mut g = big();
    let core = SystemCore::bootstrap();
    let mut sched = Scheduler::new();
    sched.register_main_thread();
    let header: Vec<Color> = (0..1280).map(|i| Color::new((i % 256) as u8, 0, 0)).collect();
    g.draw_dashboard_layout(16, Some(&core), &sched, &header);
    assert_eq!(at(&g, 0, 0), (0, 0, 0));
    assert_eq!(at(&g, 300, 47), (44, 0, 0));
    assert_eq!(at(&g, 0, 48), (13, 15, 18));
    // first task card and its accent line
    assert_eq!(at(&g, 40, 80), (0, 150, 255));
    assert_eq!(at(&g, 40, 90), (24, 28, 34));
    // heartbeat: 16 * 8 = 128 pixels
    assert_eq!(at(&g, 60 + 127, 610), (32, 223, 127));
    assert_eq!(at(&g, 60 + 128, 610), (13, 15, 18));
    // dashboard tab active
    assert_eq!(at(&g, 280, 550), (147, 51, 234));
    assert!(!g.mouse_saved);
    g.update_dashboard_telemetry(17, Some(&core), &sched);
    assert_eq!(at(&g, 60 + 135, 610), (32, 223, 127));
    assert_eq!(at(&g, 60 + 136, 610), (13, 15, 18));
}

#[test]
fn color_columns_paint_each_column() {
    let mut g = screen(6, 6, PixelFormat::Rgb);
    let cols = vec![Color::new(1, 0, 0), Color::new(2, 0, 0), Color::new(3, 0, 0)];
    g.draw_color_columns(4, 1, 2, &cols);
    assert_eq!(at(&g, 4, 1), (1, 0, 0));
    assert_eq!(at(&g, 5, 2), (2, 0, 0));
    assert_eq!(at(&g, 4, 3), (13, 15, 18));
    assert_eq!(lit(&g, Color::new(3, 0, 0)).len(), 0);
}

use rustanium::compositor::{clear_rect_with_grid, draw_gradient_rect_safe, draw_rect_safe, draw_string_safe};

#[test]
fn safe_rect_clips_negative_coordinates() {
    let mut g = screen(10, 10, PixelFormat::Rgb);
    let c = Color::new(9, 8, 7);
    draw_rect_safe(&mut g, -2, -3, 4, 5, c);
    assert_eq!(lit(&g, c), vec![(0, 0), (1, 0), (0, 1), (1, 1)]);
    draw_rect_safe(&mut g, 8, 9, 10, 10, c);
    assert_eq!(lit(&g, c).len(), 6);
    draw_rect_safe(&mut g, 0, 0, -5, 3, Color::new(1, 1, 1));
    assert_eq!(lit(&g, Color::new(1, 1, 1)).len(), 0);
}

#[test]
fn grid_clear_spares_the_header_band() {
    let mut g = big();
    g.clear(Color::new(5, 5, 5));
    clear_rect_with_grid(&mut g, 38, 40, 5, 12);
    // rows above 48 are left alone
    assert_eq!(at(&g, 40, 47), (5, 5, 5));
    // grid lines fall on multiples of 40
    assert_eq!(at(&g, 40, 50), (22, 26, 32));
    assert_eq!(at(&g, 41, 50), (13, 15, 18));
    assert_eq!(at(&g, 38, 51), (13, 15, 18));
    assert_eq!(at(&g, 43, 50), (5, 5, 5));
}

#[test]
fn gradient_columns_are_clipped() {
    let mut g = screen(4, 4, PixelFormat::Rgb);
    let cols = vec![Color::new(1, 0, 0), Color::new(2, 0, 0), Color::new(3, 0, 0)];
    draw_gradient_rect_safe(&mut g, -1, 2, 5, &cols);
    assert_eq!(lit(&g, Color::new(1, 0, 0)).len(), 0);
    assert_eq!(lit(&g, Color::new(2, 0, 0)), vec![(0, 2), (0, 3)]);
    assert_eq!(lit(&g, Color::new(3, 0, 0)), vec![(1, 2), (1, 3)]);
}

#[test]
fn safe_strings_advance_eight_pixels_and_clip() {
    let mut g = screen(20, 10, PixelFormat::Rgb);
    let c = Color::new(200, 200, 200);
    // '-' sets columns 1 to 6 of row 3; the second one starts at 8
    draw_string_safe(&mut g, -3, 0, "--", c);
    assert_eq!(lit(&g, c), vec![(0, 3), (1, 3), (2, 3), (3, 3), (6, 3), (7, 3), (8, 3), (9, 3), (10, 3), (11, 3)]);
    let mut h = screen(20, 10, PixelFormat::Rgb);
    draw_string_safe(&mut h, 0, 0, "\u{2605}-", c);
    assert_eq!(lit(&h, c).len(), 6);
    assert_eq!(at(&h, 9, 3), key(c));
}

#[test]
fn graphics_writer_breaks_lines_and_wraps() {
    let mut g = screen(20, 30, PixelFormat::Rgb);
    let c = Color::new(200, 200, 200);
    let mut w = GraphicsWriter { x: 2, y: 0, start_x: 2, color: c };
    w.write_str(&mut g, "---");
    // glyphs at columns 2 and 11; the third would reach the edge and goes to the next line
    assert_eq!((w.x, w.y), (11, 12));
    assert_eq!(at(&g, 3, 3), key(c));
    assert_eq!(at(&g, 12, 3), key(c));
    assert_eq!(at(&g, 3, 15), key(c));
    assert_eq!(lit(&g, c).len(), 18);
    w.write_str(&mut g, "\n");
    assert_eq!((w.x, w.y), (2, 24));
}

#[test]
fn dashboard_logs_show_eight_coloured_lines() {
    let mut g = big();
    let logs: Vec<String> = vec![
        "-[THREAD 1] up", "-", "-[HEALING OK]", ">>>-", "-Unknown command", "-", "-", "-", "-",
    ]
    .into_iter()
    .map(String::from)
    .collect();
    g.update_dashboard_logs(&logs);
    assert_eq!(at(&g, 61, 327), (0, 150, 255));
    assert_eq!(at(&g, 61, 347), (243, 244, 246));
    assert_eq!(at(&g, 61, 367), (32, 223, 127));
    assert_eq!(at(&g, 88, 387), (107, 114, 128));
    assert_eq!(at(&g, 61, 407), (255, 60, 60));
    // the panel is cleared to the card colour, and the ninth line is not drawn
    assert_eq!(at(&g, 60, 324), (24, 28, 34));
    assert_eq!(at(&g, 61, 487), (13, 15, 18));
}
