use rustanium::mouse::{MouseDecoder, MouseReport};

#[test]
fn packet_moves_cursor_and_sets_buttons() {
    let mut m = MouseDecoder::new();
    assert_eq!(m.handle_byte(0x09), None);
    assert_eq!(m.handle_byte(10), None);
    let r = m.handle_byte(0xFB); // dy = -5 moves down
    assert_eq!(r, Some(MouseReport { x: 650, y: 365, left: true, right: false }));
    assert_eq!((m.x, m.y, m.cycle), (650, 365, 0));
}

#[test]
fn out_of_sync_byte_is_dropped() {
    let mut m = MouseDecoder::new();
    assert_eq!(m.handle_byte(0x01), None);
    assert_eq!(m.cycle, 0);
    assert_eq!(m.handle_byte(0x0A), None);
    assert_eq!(m.cycle, 1);
}

#[test]
fn cursor_is_clamped_to_screen() {
    let mut m = MouseDecoder::new();
    for _ in 0..10 {
        m.handle_byte(0x08);
        m.handle_byte(0x7F);
        m.handle_byte(0x7F);
    }
    assert_eq!((m.x, m.y), (1279, 0));
    m.handle_byte(0x0A);
    m.handle_byte(0x80);
    let r = m.handle_byte(0x80).unwrap();
    assert_eq!((r.x, r.y, r.left, r.right), (1151, 128, false, true));
}
