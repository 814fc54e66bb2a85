use rustanium::text_metrics::{measure_text, measure_text_spaced, smooth_alpha};

fn advances() -> Vec<u8> {
    (0..95u8).map(|i| 5 + (i % 4)).collect()
}

#[test]
fn measure_sums_advances_of_printable_chars() {
    let adv = advances();
    // 'A' is index 33 -> 5 + 1 = 6; 'B' index 34 -> 7; '\n' has no glyph
    assert_eq!(measure_text("AB\n", &adv), 13);
    assert_eq!(measure_text("", &adv), 0);
}

#[test]
fn spaced_measure_adds_gaps_between_glyphs() {
    let adv = advances();
    assert_eq!(measure_text_spaced("AB", &adv, 3), 16);
    assert_eq!(measure_text_spaced("A", &adv, 3), 6);
    assert_eq!(measure_text_spaced("\n", &adv, 3), 0);
}

#[test]
fn smooth_alpha_counts_covered_subpixels() {
    let full = vec![0xFFu8; 16];
    let empty = vec![0u8; 16];
    assert_eq!(smooth_alpha(&full, 8, 16, 3, 5), 255);
    assert_eq!(smooth_alpha(&empty, 8, 16, 3, 5), 0);
    // left half set: at native size each pixel samples its own column
    let left = vec![0xF0u8; 16];
    assert_eq!(smooth_alpha(&left, 8, 16, 2, 0), 255);
    assert_eq!(smooth_alpha(&left, 8, 16, 5, 0), 0);
    // half width: pixel 1 samples columns 2 and 3 -> 3 is set, samples at 2*? both inside left half
    assert_eq!(smooth_alpha(&left, 4, 16, 1, 0), 255);
    assert_eq!(smooth_alpha(&left, 4, 16, 2, 0), 0);
}

fn screen(w: i32, h: i32) -> rustanium::graphics::BackBuffer {
    rustanium::graphics::BackBuffer { data: vec![0u8; (w * h * 3) as usize], width: w, height: h, format: 1 }
}

#[test]
fn smooth_char_paints_only_covered_cell_pixels() {
    let mut s = screen(20, 20);
    let left = vec![0xF0u8; 16];
    s.draw_char_smooth(2, 1, &left, 200, 100, 50, 8, 16);
    // column 2 of the glyph (screen x 4) is fully covered
    let i = ((1 * 20 + 4) * 3) as usize;
    assert_eq!(&s.data[i..i + 3], &[200, 100, 50]);
    // column 5 of the glyph (screen x 7) is not covered
    let j = ((1 * 20 + 7) * 3) as usize;
    assert_eq!(&s.data[j..j + 3], &[0, 0, 0]);
    // outside the cell nothing changes
    let k = ((0 * 20 + 4) * 3) as usize;
    assert_eq!(&s.data[k..k + 3], &[0, 0, 0]);
}

#[test]
fn smooth_string_advances_one_cell_plus_a_pixel() {
    let mut s = screen(40, 20);
    let mut font = vec![vec![0u8; 16]; 128];
    font['A' as usize] = vec![0xFFu8; 16];
    s.draw_string_smooth(0, 0, "\nAA", &font, 10, 20, 30, 8, 16);
    let at = |x: i32| {
        let i = ((2 * 40 + x) * 3) as usize;
        [s.data[i], s.data[i + 1], s.data[i + 2]]
    };
    assert_eq!(at(0), [10, 20, 30]);
    assert_eq!(at(7), [10, 20, 30]);
    assert_eq!(at(8), [0, 0, 0]);
    assert_eq!(at(9), [10, 20, 30]);
    assert_eq!(at(16), [10, 20, 30]);
    assert_eq!(at(17), [0, 0, 0]);
}
