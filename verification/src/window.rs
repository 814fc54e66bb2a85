//! Composited windows: each window draws into its own pixel canvas, and a
//! manager keeps the windows in depth order and moves them with the mouse.
use vstd::prelude::*;
use vstd::string::*;
use crate::text::{digit_char, digit_str};
use crate::shell::{contains_seq, contains_text, strip_prefix_text};
use crate::kernel_core::SystemCore;

verus! {

/// An RGB colour.
#[derive(Debug, Clone, Copy)]
pub struct Color {
    /// Red.
    pub r: u8,
    /// Green.
    pub g: u8,
    /// Blue.
    pub b: u8,
}

impl Color {
    /// The colour `(r, g, b)`.
    pub fn new(r: u8, g: u8, b: u8) -> (c: Self)
        ensures
            c == (Color { r, g, b }),
    {
        Color { r, g, b }
    }
}

/// Background of a window's client area.
pub open spec fn panel_bg() -> Color {
    Color { r: 24, g: 28, b: 34 }
}

/// The bitmap rows of an 8x8 glyph, most significant bit leftmost; all
/// zero for characters without a glyph.
pub open spec fn glyph(c: int) -> Seq<u8> {
    if c == 32 {
        seq![0u8, 0, 0, 0, 0, 0, 0, 0]
    } else if c == 33 {
        seq![0x18u8, 0x18, 0x18, 0x18, 0x00, 0x00, 0x18, 0x00]
    } else if c == 34 {
        seq![0x24u8, 0x24, 0x24, 0x00, 0x00, 0x00, 0x00, 0x00]
    } else if c == 35 {
        seq![0x24u8, 0x7e, 0x24, 0x24, 0x7e, 0x24, 0x24, 0x00]
    } else if c == 36 {
        seq![0x18u8, 0x3e, 0x1c, 0x18, 0x38, 0x3e, 0x18, 0x00]
    } else if c == 37 {
        seq![0x62u8, 0x64, 0x08, 0x10, 0x20, 0x26, 0x46, 0x00]
    } else if c == 38 {
        seq![0x1cu8, 0x22, 0x22, 0x1c, 0x2a, 0x24, 0x1a, 0x00]
    } else if c == 39 {
        seq![0x0cu8, 0x0c, 0x08, 0x00, 0x00, 0x00, 0x00, 0x00]
    } else if c == 40 {
        seq![0x0cu8, 0x18, 0x18, 0x18, 0x18, 0x18, 0x0c, 0x00]
    } else if c == 41 {
        seq![0x30u8, 0x18, 0x18, 0x18, 0x18, 0x18, 0x30, 0x00]
    } else if c == 42 {
        seq![0x00u8, 0x24, 0x18, 0x7e, 0x18, 0x24, 0x00, 0x00]
    } else if c == 43 {
        seq![0x00u8, 0x18, 0x18, 0x7e, 0x18, 0x18, 0x00, 0x00]
    } else if c == 44 {
        seq![0x00u8, 0x00, 0x00, 0x00, 0x00, 0x0c, 0x0c, 0x08]
    } else if c == 45 {
        seq![0x00u8, 0x00, 0x00, 0x7e, 0x00, 0x00, 0x00, 0x00]
    } else if c == 46 {
        seq![0x00u8, 0x00, 0x00, 0x00, 0x00, 0x18, 0x18, 0x00]
    } else if c == 47 {
        seq![0x02u8, 0x04, 0x08, 0x10, 0x20, 0x40, 0x80, 0x00]
    } else if c == 48 {
        seq![0x3cu8, 0x66, 0x6e, 0x76, 0x66, 0x66, 0x3c, 0x00]
    } else if c == 49 {
        seq![0x18u8, 0x1c, 0x18, 0x18, 0x18, 0x18, 0x7e, 0x00]
    } else if c == 50 {
        seq![0x3cu8, 0x66, 0x06, 0x0c, 0x30, 0x60, 0x7e, 0x00]
    } else if c == 51 {
        seq![0x3cu8, 0x66, 0x06, 0x1c, 0x06, 0x66, 0x3c, 0x00]
    } else if c == 52 {
        seq![0x06u8, 0x0e, 0x1e, 0x66, 0x7f, 0x06, 0x06, 0x00]
    } else if c == 53 {
        seq![0x7fu8, 0x60, 0x7c, 0x06, 0x06, 0x66, 0x3c, 0x00]
    } else if c == 54 {
        seq![0x3cu8, 0x60, 0x7c, 0x66, 0x66, 0x66, 0x3c, 0x00]
    } else if c == 55 {
        seq![0x7fu8, 0x06, 0x0c, 0x18, 0x18, 0x18, 0x18, 0x00]
    } else if c == 56 {
        seq![0x3cu8, 0x66, 0x66, 0x3c, 0x66, 0x66, 0x3c, 0x00]
    } else if c == 57 {
        seq![0x3cu8, 0x66, 0x66, 0x3e, 0x06, 0x0c, 0x38, 0x00]
    } else if c == 58 {
        seq![0x00u8, 0x18, 0x18, 0x00, 0x00, 0x18, 0x18, 0x00]
    } else if c == 59 {
        seq![0x00u8, 0x18, 0x18, 0x00, 0x00, 0x18, 0x18, 0x10]
    } else if c == 60 {
        seq![0x0cu8, 0x18, 0x30, 0x60, 0x30, 0x18, 0x0c, 0x00]
    } else if c == 61 {
        seq![0x00u8, 0x00, 0x7e, 0x00, 0x7e, 0x00, 0x00, 0x00]
    } else if c == 62 {
        seq![0x30u8, 0x18, 0x0c, 0x06, 0x0c, 0x18, 0x30, 0x00]
    } else if c == 63 {
        seq![0x3cu8, 0x66, 0x06, 0x0c, 0x18, 0x00, 0x18, 0x00]
    } else if c == 64 {
        seq![0x3cu8, 0x66, 0x6e, 0x6a, 0x6e, 0x60, 0x3c, 0x00]
    } else if c == 65 {
        seq![0x18u8, 0x3c, 0x66, 0x7e, 0x66, 0x66, 0x66, 0x00]
    } else if c == 66 {
        seq![0x7cu8, 0x66, 0x66, 0x7c, 0x66, 0x66, 0x7c, 0x00]
    } else if c == 67 {
        seq![0x3cu8, 0x66, 0x60, 0x60, 0x60, 0x66, 0x3c, 0x00]
    } else if c == 68 {
        seq![0x78u8, 0x6c, 0x66, 0x66, 0x66, 0x6c, 0x78, 0x00]
    } else if c == 69 {
        seq![0x7eu8, 0x60, 0x60, 0x7c, 0x60, 0x60, 0x7e, 0x00]
    } else if c == 70 {
        seq![0x7eu8, 0x60, 0x60, 0x7c, 0x60, 0x60, 0x60, 0x00]
    } else if c == 71 {
        seq![0x3cu8, 0x66, 0x60, 0x6e, 0x66, 0x66, 0x3e, 0x00]
    } else if c == 72 {
        seq![0x66u8, 0x66, 0x66, 0x7e, 0x66, 0x66, 0x66, 0x00]
    } else if c == 73 {
        seq![0x3eu8, 0x08, 0x08, 0x08, 0x08, 0x08, 0x3e, 0x00]
    } else if c == 74 {
        seq![0x1fu8, 0x04, 0x04, 0x04, 0x04, 0x64, 0x3c, 0x00]
    } else if c == 75 {
        seq![0x66u8, 0x6c, 0x78, 0x70, 0x78, 0x6c, 0x66, 0x00]
    } else if c == 76 {
        seq![0x60u8, 0x60, 0x60, 0x60, 0x60, 0x60, 0x7e, 0x00]
    } else if c == 77 {
        seq![0x63u8, 0x77, 0x7f, 0x6b, 0x63, 0x63, 0x63, 0x00]
    } else if c == 78 {
        seq![0x66u8, 0x76, 0x7e, 0x7e, 0x6e, 0x66, 0x66, 0x00]
    } else if c == 79 {
        seq![0x3cu8, 0x66, 0x66, 0x66, 0x66, 0x66, 0x3c, 0x00]
    } else if c == 80 {
        seq![0x7cu8, 0x66, 0x66, 0x7c, 0x60, 0x60, 0x60, 0x00]
    } else if c == 81 {
        seq![0x3cu8, 0x66, 0x66, 0x66, 0x6a, 0x6c, 0x3e, 0x02]
    } else if c == 82 {
        seq![0x7cu8, 0x66, 0x66, 0x7c, 0x78, 0x6c, 0x66, 0x00]
    } else if c == 83 {
        seq![0x3eu8, 0x60, 0x60, 0x3c, 0x06, 0x06, 0x7c, 0x00]
    } else if c == 84 {
        seq![0x7eu8, 0x18, 0x18, 0x18, 0x18, 0x18, 0x18, 0x00]
    } else if c == 85 {
        seq![0x66u8, 0x66, 0x66, 0x66, 0x66, 0x66, 0x3c, 0x00]
    } else if c == 86 {
        seq![0x66u8, 0x66, 0x66, 0x66, 0x66, 0x3c, 0x18, 0x00]
    } else if c == 87 {
        seq![0x63u8, 0x63, 0x63, 0x6b, 0x7f, 0x77, 0x63, 0x00]
    } else if c == 88 {
        seq![0x66u8, 0x66, 0x3c, 0x18, 0x3c, 0x66, 0x66, 0x00]
    } else if c == 89 {
        seq![0x66u8, 0x66, 0x66, 0x3c, 0x18, 0x18, 0x18, 0x00]
    } else if c == 90 {
        seq![0x7eu8, 0x06, 0x0c, 0x18, 0x30, 0x60, 0x7e, 0x00]
    } else if c == 91 {
        seq![0x3eu8, 0x30, 0x30, 0x30, 0x30, 0x30, 0x3e, 0x00]
    } else if c == 92 {
        seq![0x80u8, 0x40, 0x20, 0x10, 0x08, 0x04, 0x02, 0x00]
    } else if c == 93 {
        seq![0x7cu8, 0x0c, 0x0c, 0x0c, 0x0c, 0x0c, 0x7c, 0x00]
    } else if c == 94 {
        seq![0x08u8, 0x1c, 0x36, 0x00, 0x00, 0x00, 0x00, 0x00]
    } else if c == 95 {
        seq![0x00u8, 0x00, 0x00, 0x00, 0x00, 0x00, 0xff, 0x00]
    } else if c == 96 {
        seq![0x18u8, 0x08, 0x04, 0x00, 0x00, 0x00, 0x00, 0x00]
    } else if c == 97 {
        seq![0x00u8, 0x00, 0x3c, 0x06, 0x3e, 0x66, 0x3e, 0x00]
    } else if c == 98 {
        seq![0x60u8, 0x60, 0x7c, 0x66, 0x66, 0x66, 0x7c, 0x00]
    } else if c == 99 {
        seq![0x00u8, 0x00, 0x3c, 0x66, 0x60, 0x66, 0x3c, 0x00]
    } else if c == 100 {
        seq![0x06u8, 0x06, 0x3e, 0x66, 0x66, 0x66, 0x3e, 0x00]
    } else if c == 101 {
        seq![0x00u8, 0x00, 0x3c, 0x66, 0x7e, 0x60, 0x3c, 0x00]
    } else if c == 102 {
        seq![0x0eu8, 0x18, 0x3c, 0x18, 0x18, 0x18, 0x18, 0x00]
    } else if c == 103 {
        seq![0x00u8, 0x00, 0x3e, 0x66, 0x66, 0x3e, 0x06, 0x3c]
    } else if c == 104 {
        seq![0x60u8, 0x60, 0x7c, 0x66, 0x66, 0x66, 0x66, 0x00]
    } else if c == 105 {
        seq![0x18u8, 0x00, 0x38, 0x18, 0x18, 0x18, 0x3c, 0x00]
    } else if c == 106 {
        seq![0x06u8, 0x00, 0x0e, 0x06, 0x06, 0x06, 0x66, 0x3c]
    } else if c == 107 {
        seq![0x60u8, 0x60, 0x66, 0x6c, 0x78, 0x6c, 0x66, 0x00]
    } else if c == 108 {
        seq![0x38u8, 0x18, 0x18, 0x18, 0x18, 0x18, 0x3c, 0x00]
    } else if c == 109 {
        seq![0x00u8, 0x00, 0x6d, 0x77, 0x6b, 0x63, 0x63, 0x00]
    } else if c == 110 {
        seq![0x00u8, 0x00, 0x7c, 0x66, 0x66, 0x66, 0x66, 0x00]
    } else if c == 111 {
        seq![0x00u8, 0x00, 0x3c, 0x66, 0x66, 0x66, 0x3c, 0x00]
    } else if c == 112 {
        seq![0x00u8, 0x00, 0x7c, 0x66, 0x66, 0x7c, 0x60, 0x60]
    } else if c == 113 {
        seq![0x00u8, 0x00, 0x3e, 0x66, 0x66, 0x3e, 0x06, 0x06]
    } else if c == 114 {
        seq![0x00u8, 0x00, 0x76, 0x7c, 0x60, 0x60, 0x60, 0x00]
    } else if c == 115 {
        seq![0x00u8, 0x00, 0x3e, 0x60, 0x3c, 0x06, 0x7c, 0x00]
    } else if c == 116 {
        seq![0x18u8, 0x18, 0x7e, 0x18, 0x18, 0x18, 0x0e, 0x00]
    } else if c == 117 {
        seq![0x00u8, 0x00, 0x66, 0x66, 0x66, 0x66, 0x3e, 0x00]
    } else if c == 118 {
        seq![0x00u8, 0x00, 0x66, 0x66, 0x66, 0x3c, 0x18, 0x00]
    } else if c == 119 {
        seq![0x00u8, 0x00, 0x63, 0x6b, 0x7f, 0x77, 0x63, 0x00]
    } else if c == 120 {
        seq![0x00u8, 0x00, 0x66, 0x3c, 0x18, 0x3c, 0x66, 0x00]
    } else if c == 121 {
        seq![0x00u8, 0x00, 0x66, 0x66, 0x66, 0x3e, 0x06, 0x3c]
    } else if c == 122 {
        seq![0x00u8, 0x00, 0x7e, 0x0c, 0x18, 0x30, 0x7e, 0x00]
    } else if c == 123 {
        seq![0x0eu8, 0x18, 0x18, 0x30, 0x18, 0x18, 0x0e, 0x00]
    } else if c == 124 {
        seq![0x18u8, 0x18, 0x18, 0x18, 0x18, 0x18, 0x18, 0x00]
    } else if c == 125 {
        seq![0x70u8, 0x18, 0x18, 0x0c, 0x18, 0x18, 0x70, 0x00]
    } else {
        seq![0u8, 0, 0, 0, 0, 0, 0, 0]
    }
}

/// The rows of the glyph of character code `c`.
pub(crate) fn font_glyph(c: usize) -> (g: [u8; 8])
    ensures
        g@ == glyph(c as int),
{
    match c {
        33 => [0x18u8, 0x18, 0x18, 0x18, 0x00, 0x00, 0x18, 0x00],
        34 => [0x24u8, 0x24, 0x24, 0x00, 0x00, 0x00, 0x00, 0x00],
        35 => [0x24u8, 0x7e, 0x24, 0x24, 0x7e, 0x24, 0x24, 0x00],
        36 => [0x18u8, 0x3e, 0x1c, 0x18, 0x38, 0x3e, 0x18, 0x00],
        37 => [0x62u8, 0x64, 0x08, 0x10, 0x20, 0x26, 0x46, 0x00],
        38 => [0x1cu8, 0x22, 0x22, 0x1c, 0x2a, 0x24, 0x1a, 0x00],
        39 => [0x0cu8, 0x0c, 0x08, 0x00, 0x00, 0x00, 0x00, 0x00],
        40 => [0x0cu8, 0x18, 0x18, 0x18, 0x18, 0x18, 0x0c, 0x00],
        41 => [0x30u8, 0x18, 0x18, 0x18, 0x18, 0x18, 0x30, 0x00],
        42 => [0x00u8, 0x24, 0x18, 0x7e, 0x18, 0x24, 0x00, 0x00],
        43 => [0x00u8, 0x18, 0x18, 0x7e, 0x18, 0x18, 0x00, 0x00],
        44 => [0x00u8, 0x00, 0x00, 0x00, 0x00, 0x0c, 0x0c, 0x08],
        45 => [0x00u8, 0x00, 0x00, 0x7e, 0x00, 0x00, 0x00, 0x00],
        46 => [0x00u8, 0x00, 0x00, 0x00, 0x00, 0x18, 0x18, 0x00],
        47 => [0x02u8, 0x04, 0x08, 0x10, 0x20, 0x40, 0x80, 0x00],
        48 => [0x3cu8, 0x66, 0x6e, 0x76, 0x66, 0x66, 0x3c, 0x00],
        49 => [0x18u8, 0x1c, 0x18, 0x18, 0x18, 0x18, 0x7e, 0x00],
        50 => [0x3cu8, 0x66, 0x06, 0x0c, 0x30, 0x60, 0x7e, 0x00],
        51 => [0x3cu8, 0x66, 0x06, 0x1c, 0x06, 0x66, 0x3c, 0x00],
        52 => [0x06u8, 0x0e, 0x1e, 0x66, 0x7f, 0x06, 0x06, 0x00],
        53 => [0x7fu8, 0x60, 0x7c, 0x06, 0x06, 0x66, 0x3c, 0x00],
        54 => [0x3cu8, 0x60, 0x7c, 0x66, 0x66, 0x66, 0x3c, 0x00],
        55 => [0x7fu8, 0x06, 0x0c, 0x18, 0x18, 0x18, 0x18, 0x00],
        56 => [0x3cu8, 0x66, 0x66, 0x3c, 0x66, 0x66, 0x3c, 0x00],
        57 => [0x3cu8, 0x66, 0x66, 0x3e, 0x06, 0x0c, 0x38, 0x00],
        58 => [0x00u8, 0x18, 0x18, 0x00, 0x00, 0x18, 0x18, 0x00],
        59 => [0x00u8, 0x18, 0x18, 0x00, 0x00, 0x18, 0x18, 0x10],
        60 => [0x0cu8, 0x18, 0x30, 0x60, 0x30, 0x18, 0x0c, 0x00],
        61 => [0x00u8, 0x00, 0x7e, 0x00, 0x7e, 0x00, 0x00, 0x00],
        62 => [0x30u8, 0x18, 0x0c, 0x06, 0x0c, 0x18, 0x30, 0x00],
        63 => [0x3cu8, 0x66, 0x06, 0x0c, 0x18, 0x00, 0x18, 0x00],
        64 => [0x3cu8, 0x66, 0x6e, 0x6a, 0x6e, 0x60, 0x3c, 0x00],
        65 => [0x18u8, 0x3c, 0x66, 0x7e, 0x66, 0x66, 0x66, 0x00],
        66 => [0x7cu8, 0x66, 0x66, 0x7c, 0x66, 0x66, 0x7c, 0x00],
        67 => [0x3cu8, 0x66, 0x60, 0x60, 0x60, 0x66, 0x3c, 0x00],
        68 => [0x78u8, 0x6c, 0x66, 0x66, 0x66, 0x6c, 0x78, 0x00],
        69 => [0x7eu8, 0x60, 0x60, 0x7c, 0x60, 0x60, 0x7e, 0x00],
        70 => [0x7eu8, 0x60, 0x60, 0x7c, 0x60, 0x60, 0x60, 0x00],
        71 => [0x3cu8, 0x66, 0x60, 0x6e, 0x66, 0x66, 0x3e, 0x00],
        72 => [0x66u8, 0x66, 0x66, 0x7e, 0x66, 0x66, 0x66, 0x00],
        73 => [0x3eu8, 0x08, 0x08, 0x08, 0x08, 0x08, 0x3e, 0x00],
        74 => [0x1fu8, 0x04, 0x04, 0x04, 0x04, 0x64, 0x3c, 0x00],
        75 => [0x66u8, 0x6c, 0x78, 0x70, 0x78, 0x6c, 0x66, 0x00],
        76 => [0x60u8, 0x60, 0x60, 0x60, 0x60, 0x60, 0x7e, 0x00],
        77 => [0x63u8, 0x77, 0x7f, 0x6b, 0x63, 0x63, 0x63, 0x00],
        78 => [0x66u8, 0x76, 0x7e, 0x7e, 0x6e, 0x66, 0x66, 0x00],
        79 => [0x3cu8, 0x66, 0x66, 0x66, 0x66, 0x66, 0x3c, 0x00],
        80 => [0x7cu8, 0x66, 0x66, 0x7c, 0x60, 0x60, 0x60, 0x00],
        81 => [0x3cu8, 0x66, 0x66, 0x66, 0x6a, 0x6c, 0x3e, 0x02],
        82 => [0x7cu8, 0x66, 0x66, 0x7c, 0x78, 0x6c, 0x66, 0x00],
        83 => [0x3eu8, 0x60, 0x60, 0x3c, 0x06, 0x06, 0x7c, 0x00],
        84 => [0x7eu8, 0x18, 0x18, 0x18, 0x18, 0x18, 0x18, 0x00],
        85 => [0x66u8, 0x66, 0x66, 0x66, 0x66, 0x66, 0x3c, 0x00],
        86 => [0x66u8, 0x66, 0x66, 0x66, 0x66, 0x3c, 0x18, 0x00],
        87 => [0x63u8, 0x63, 0x63, 0x6b, 0x7f, 0x77, 0x63, 0x00],
        88 => [0x66u8, 0x66, 0x3c, 0x18, 0x3c, 0x66, 0x66, 0x00],
        89 => [0x66u8, 0x66, 0x66, 0x3c, 0x18, 0x18, 0x18, 0x00],
        90 => [0x7eu8, 0x06, 0x0c, 0x18, 0x30, 0x60, 0x7e, 0x00],
        91 => [0x3eu8, 0x30, 0x30, 0x30, 0x30, 0x30, 0x3e, 0x00],
        92 => [0x80u8, 0x40, 0x20, 0x10, 0x08, 0x04, 0x02, 0x00],
        93 => [0x7cu8, 0x0c, 0x0c, 0x0c, 0x0c, 0x0c, 0x7c, 0x00],
        94 => [0x08u8, 0x1c, 0x36, 0x00, 0x00, 0x00, 0x00, 0x00],
        95 => [0x00u8, 0x00, 0x00, 0x00, 0x00, 0x00, 0xff, 0x00],
        96 => [0x18u8, 0x08, 0x04, 0x00, 0x00, 0x00, 0x00, 0x00],
        97 => [0x00u8, 0x00, 0x3c, 0x06, 0x3e, 0x66, 0x3e, 0x00],
        98 => [0x60u8, 0x60, 0x7c, 0x66, 0x66, 0x66, 0x7c, 0x00],
        99 => [0x00u8, 0x00, 0x3c, 0x66, 0x60, 0x66, 0x3c, 0x00],
        100 => [0x06u8, 0x06, 0x3e, 0x66, 0x66, 0x66, 0x3e, 0x00],
        101 => [0x00u8, 0x00, 0x3c, 0x66, 0x7e, 0x60, 0x3c, 0x00],
        102 => [0x0eu8, 0x18, 0x3c, 0x18, 0x18, 0x18, 0x18, 0x00],
        103 => [0x00u8, 0x00, 0x3e, 0x66, 0x66, 0x3e, 0x06, 0x3c],
        104 => [0x60u8, 0x60, 0x7c, 0x66, 0x66, 0x66, 0x66, 0x00],
        105 => [0x18u8, 0x00, 0x38, 0x18, 0x18, 0x18, 0x3c, 0x00],
        106 => [0x06u8, 0x00, 0x0e, 0x06, 0x06, 0x06, 0x66, 0x3c],
        107 => [0x60u8, 0x60, 0x66, 0x6c, 0x78, 0x6c, 0x66, 0x00],
        108 => [0x38u8, 0x18, 0x18, 0x18, 0x18, 0x18, 0x3c, 0x00],
        109 => [0x00u8, 0x00, 0x6d, 0x77, 0x6b, 0x63, 0x63, 0x00],
        110 => [0x00u8, 0x00, 0x7c, 0x66, 0x66, 0x66, 0x66, 0x00],
        111 => [0x00u8, 0x00, 0x3c, 0x66, 0x66, 0x66, 0x3c, 0x00],
        112 => [0x00u8, 0x00, 0x7c, 0x66, 0x66, 0x7c, 0x60, 0x60],
        113 => [0x00u8, 0x00, 0x3e, 0x66, 0x66, 0x3e, 0x06, 0x06],
        114 => [0x00u8, 0x00, 0x76, 0x7c, 0x60, 0x60, 0x60, 0x00],
        115 => [0x00u8, 0x00, 0x3e, 0x60, 0x3c, 0x06, 0x7c, 0x00],
        116 => [0x18u8, 0x18, 0x7e, 0x18, 0x18, 0x18, 0x0e, 0x00],
        117 => [0x00u8, 0x00, 0x66, 0x66, 0x66, 0x66, 0x3e, 0x00],
        118 => [0x00u8, 0x00, 0x66, 0x66, 0x66, 0x3c, 0x18, 0x00],
        119 => [0x00u8, 0x00, 0x63, 0x6b, 0x7f, 0x77, 0x63, 0x00],
        120 => [0x00u8, 0x00, 0x66, 0x3c, 0x18, 0x3c, 0x66, 0x00],
        121 => [0x00u8, 0x00, 0x66, 0x66, 0x66, 0x3e, 0x06, 0x3c],
        122 => [0x00u8, 0x00, 0x7e, 0x0c, 0x18, 0x30, 0x7e, 0x00],
        123 => [0x0eu8, 0x18, 0x18, 0x30, 0x18, 0x18, 0x0e, 0x00],
        124 => [0x18u8, 0x18, 0x18, 0x18, 0x18, 0x18, 0x18, 0x00],
        125 => [0x70u8, 0x18, 0x18, 0x0c, 0x18, 0x18, 0x70, 0x00],
        _ => [0u8, 0, 0, 0, 0, 0, 0, 0],
    }
}

/// Pixel `(col, row)` of the glyph of `c` is set.
pub open spec fn glyph_bit(c: char, row: int, col: int) -> bool {
    (c as u32) < 128 && 0 <= row < 8 && 0 <= col < 8 && (glyph(c as u32 as int)[row] & (0x80u8 >> (col as u8))) != 0
}

/// The canvas `buf`, `w` pixels wide, with colour `c` at every pixel whose
/// column and row satisfy `f` (pixel `p` is column `p % w` of row `p / w`).
pub open spec fn paint(buf: Seq<Color>, w: int, f: spec_fn(int, int) -> bool, c: Color) -> Seq<Color> {
    Seq::new(buf.len(), |p: int| if w > 0 && f(p % w, p / w) { c } else { buf[p] })
}

/// Painting twice with one colour paints the union.
pub proof fn lemma_paint_twice(
    buf: Seq<Color>,
    w: int,
    f: spec_fn(int, int) -> bool,
    g: spec_fn(int, int) -> bool,
    c: Color,
)
    ensures
        paint(paint(buf, w, f, c), w, g, c) == paint(buf, w, |x: int, y: int| f(x, y) || g(x, y), c),
{
    assert(paint(paint(buf, w, f, c), w, g, c) =~= paint(buf, w, |x: int, y: int| f(x, y) || g(x, y), c));
}

/// Pixel `(x, y)` of a canvas `w` pixels wide is at `y * w + x`.
proof fn lemma_pixel_index(p: int, w: int, x: int, y: int)
    requires
        w > 0,
        0 <= x < w,
        0 <= y,
        0 <= p,
    ensures
        (p == y * w + x) <==> (p % w == x && p / w == y),
{
    if p == y * w + x {
        vstd::arithmetic::div_mod::lemma_fundamental_div_mod_converse(p, w, y, x);
    }
    if p % w == x && p / w == y {
        vstd::arithmetic::div_mod::lemma_fundamental_div_mod(p, w);
        assert(p == w * (p / w) + p % w);
        assert(w * y == y * w) by (nonlinear_arith);
    }
}

/// A window: position, size, title and focus, with a private canvas of
/// `width * height` pixels in row order.
pub struct Window {
    /// Identifier.
    pub id: usize,
    /// Title shown in the title bar.
    pub title: &'static str,
    /// Left edge of the client area.
    pub x: i32,
    /// Top edge of the client area.
    pub y: i32,
    /// Client width in pixels.
    pub width: i32,
    /// Client height in pixels.
    pub height: i32,
    /// Whether the window has the focus.
    pub is_active: bool,
    /// The canvas.
    pub buffer: Vec<Color>,
    /// Left edge last drawn.
    pub prev_x: i32,
    /// Top edge last drawn.
    pub prev_y: i32,
    /// Width last drawn.
    pub prev_width: i32,
    /// Height last drawn.
    pub prev_height: i32,
    /// Whether the last drawn geometry is known.
    pub has_prev: bool,
}

impl Window {
    /// The canvas has `width * height` pixels, a count that fits an `i32`.
    pub open spec fn wf(&self) -> bool {
        &&& 0 <= self.width * self.height <= i32::MAX
        &&& self.buffer@.len() == self.width * self.height
    }

    /// Everything but the canvas is as in `other`.
    pub open spec fn same_frame(&self, other: Self) -> bool {
        &&& self.id == other.id
        &&& self.title == other.title
        &&& self.x == other.x
        &&& self.y == other.y
        &&& self.width == other.width
        &&& self.height == other.height
        &&& self.is_active == other.is_active
        &&& self.prev_x == other.prev_x
        &&& self.prev_y == other.prev_y
        &&& self.prev_width == other.prev_width
        &&& self.prev_height == other.prev_height
        &&& self.has_prev == other.has_prev
    }

    /// An inactive window filled with the panel background.
    pub fn new(id: usize, title: &'static str, x: i32, y: i32, width: i32, height: i32) -> (w: Self)
        requires
            0 <= width * height <= i32::MAX,
        ensures
            w.wf(),
            w.id == id && w.title == title && w.x == x && w.y == y && w.width == width && w.height
                == height,
            !w.is_active && !w.has_prev,
            w.prev_x == x && w.prev_y == y && w.prev_width == width && w.prev_height == height,
            w.buffer@ == Seq::new((width * height) as nat, |p: int| panel_bg()),
    {
        let size = (width * height) as usize;
        let mut buffer: Vec<Color> = Vec::with_capacity(size);
        let mut k: usize = 0;
        while k < size
            invariant
                k <= size,
                buffer@ == Seq::new(k as nat, |p: int| panel_bg()),
            decreases size - k,
        {
            buffer.push(Color { r: 24, g: 28, b: 34 });
            assert(buffer@ =~= Seq::new((k + 1) as nat, |p: int| panel_bg()));
            k = k + 1;
        }
        Window {
            id,
            title,
            x,
            y,
            width,
            height,
            is_active: false,
            buffer,
            prev_x: x,
            prev_y: y,
            prev_width: width,
            prev_height: height,
            has_prev: false,
        }
    }

    /// Sets canvas pixel `(wx, wy)`; pixels outside the canvas are ignored.
    pub fn write_pixel(&mut self, wx: i32, wy: i32, color: Color)
        requires
            old(self).wf(),
        ensures
            final(self).wf(),
            final(self).same_frame(*old(self)),
            final(self).buffer@ == paint(
                old(self).buffer@,
                old(self).width as int,
                |a: int, b: int| a == wx && b == wy,
                color,
            ),
    {
        let ghost w = self.width as int;
        let ghost h = self.height as int;
        if wx < 0 || wx >= self.width || wy < 0 || wy >= self.height {
            proof {
                assert forall|p: int| 0 <= p < self.buffer@.len() implies !(w > 0 && #[trigger] (p % w) == wx && p / w == wy) by {
                    if w > 0 && p % w == wx && p / w == wy {
                        vstd::arithmetic::div_mod::lemma_fundamental_div_mod(p, w);
                        assert(p == w * (p / w) + p % w);
                        assert(p < w * h);
                        assert(w * wy + wx < w * h);
                        assert(wy < h) by (nonlinear_arith)
                            requires
                                w > 0,
                                0 <= wx,
                                w * wy + wx < w * h,
                        ;
                    }
                }
                assert(self.buffer@ =~= paint(self.buffer@, w, |a: int, b: int| a == wx && b == wy, color));
            }
            return;
        }
        proof {
            assert(0 <= wy * w + wx < w * h) by (nonlinear_arith)
                requires
                    0 <= wx < w,
                    0 <= wy < h,
            ;
        }
        let idx = (wy * self.width + wx) as usize;
        let ghost before = self.buffer@;
        self.buffer.set(idx, color);
        proof {
            assert forall|p: int| 0 <= p < before.len() implies (p == idx) == (#[trigger] (p % w) == wx && p / w == wy) by {
                lemma_pixel_index(p, w, wx as int, wy as int);
            }
            assert(self.buffer@ =~= paint(before, w, |a: int, b: int| a == wx && b == wy, color));
        }
    }

    /// Fills the whole canvas with `color`.
    pub fn clear(&mut self, color: Color)
        requires
            old(self).wf(),
        ensures
            final(self).wf(),
            final(self).same_frame(*old(self)),
            final(self).buffer@ == Seq::new(old(self).buffer@.len(), |p: int| color),
    {
        let n = self.buffer.len();
        let mut k: usize = 0;
        while k < n
            invariant
                self.wf(),
                self.same_frame(*old(self)),
                n == self.buffer@.len(),
                k <= n,
                forall|p: int| 0 <= p < k ==> #[trigger] self.buffer@[p] == color,
            decreases n - k,
        {
            self.buffer.set(k, color);
            k = k + 1;
        }
        assert(self.buffer@ =~= Seq::new(old(self).buffer@.len(), |p: int| color));
    }

    /// Fills the rectangle of `rw` by `rh` pixels at `(rx, ry)`, clipped to
    /// the canvas.
    pub fn draw_rect(&mut self, rx: i32, ry: i32, rw: i32, rh: i32, color: Color)
        requires
            old(self).wf(),
            rx + rw <= i32::MAX + 1,
            ry + rh <= i32::MAX + 1,
        ensures
            final(self).wf(),
            final(self).same_frame(*old(self)),
            final(self).buffer@ == paint(
                old(self).buffer@,
                old(self).width as int,
                |a: int, b: int| rx <= a < rx + rw && ry <= b < ry + rh,
                color,
            ),
    {
        let ghost w = self.width as int;
        let ghost b0 = self.buffer@;
        let mut y: i32 = 0;
        while y < rh
            invariant
                self.wf(),
                self.same_frame(*old(self)),
                w == self.width,
                0 <= y,
                rh > 0 ==> y <= rh,
                rh <= 0 ==> y == 0,
                rx + rw <= i32::MAX + 1,
                ry + rh <= i32::MAX + 1,
                self.buffer@ == paint(b0, w, |a: int, b: int| rx <= a < rx + rw && ry <= b < ry + y, color),
            decreases rh - y,
        {
            let mut x: i32 = 0;
            while x < rw
                invariant
                    self.wf(),
                    self.same_frame(*old(self)),
                    w == self.width,
                    0 <= y < rh,
                    0 <= x,
                    rw > 0 ==> x <= rw,
                    rw <= 0 ==> x == 0,
                    rx + rw <= i32::MAX + 1,
                    ry + rh <= i32::MAX + 1,
                    self.buffer@ == paint(
                        b0,
                        w,
                        |a: int, b: int| (rx <= a < rx + rw && ry <= b < ry + y) || (b == ry + y && rx <= a < rx + x),
                        color,
                    ),
                decreases rw - x,
            {
                let ghost before = self.buffer@;
                self.write_pixel(rx + x, ry + y, color);
                proof {
                    lemma_paint_twice(
                        b0,
                        w,
                        |a: int, b: int| (rx <= a < rx + rw && ry <= b < ry + y) || (b == ry + y && rx <= a < rx + x),
                        |a: int, b: int| a == rx + x && b == ry + y,
                        color,
                    );
                    assert(self.buffer@ =~= paint(
                        b0,
                        w,
                        |a: int, b: int| (rx <= a < rx + rw && ry <= b < ry + y) || (b == ry + y && rx <= a < rx + x + 1),
                        color,
                    ));
                }
                x = x + 1;
            }
            proof {
                assert(self.buffer@ =~= paint(
                    b0,
                    w,
                    |a: int, b: int| rx <= a < rx + rw && ry <= b < ry + y + 1,
                    color,
                ));
            }
            y = y + 1;
        }
        assert(self.buffer@ =~= paint(
            b0,
            w,
            |a: int, b: int| rx <= a < rx + rw && ry <= b < ry + rh,
            color,
        ));
    }
}

/// The frame of the rectangle `rw` by `rh` at `(rx, ry)`: its top and
/// bottom rows and its left and right columns.
pub open spec fn border(rx: int, ry: int, rw: int, rh: int, a: int, b: int) -> bool {
    ||| rx <= a < rx + rw && (b == ry || b == ry + rh - 1)
    ||| ry <= b < ry + rh && (a == rx || a == rx + rw - 1)
}

/// The canvas after drawing `text` from `(sx, sy)`, one glyph every eight
/// pixels.
pub open spec fn string_paint(buf: Seq<Color>, w: int, sx: int, sy: int, text: Seq<char>, c: Color) -> Seq<Color>
    decreases text.len(),
{
    if text.len() == 0 {
        buf
    } else {
        let x0 = sx + 8 * (text.len() - 1);
        paint(
            string_paint(buf, w, sx, sy, text.drop_last(), c),
            w,
            |a: int, b: int| glyph_bit(text.last(), b - sy, a - x0),
            c,
        )
    }
}

impl Window {
    /// Draws the one-pixel frame of the rectangle `rw` by `rh` at `(rx, ry)`.
    pub fn draw_border_rect(&mut self, rx: i32, ry: i32, rw: i32, rh: i32, color: Color)
        requires
            old(self).wf(),
            rw > 0 ==> i32::MIN <= ry + rh - 1 && ry + rh <= i32::MAX && rx + rw - 1 <= i32::MAX,
            rh > 0 ==> i32::MIN <= rx + rw - 1 && rx + rw <= i32::MAX && ry + rh - 1 <= i32::MAX,
        ensures
            final(self).wf(),
            final(self).same_frame(*old(self)),
            final(self).buffer@ == paint(
                old(self).buffer@,
                old(self).width as int,
                |a: int, b: int| border(rx as int, ry as int, rw as int, rh as int, a, b),
                color,
            ),
    {
        let ghost w = self.width as int;
        let ghost b0 = self.buffer@;
        let mut x: i32 = 0;
        while x < rw
            invariant
                self.wf(),
                self.same_frame(*old(self)),
                w == self.width,
                0 <= x,
                rw > 0 ==> x <= rw,
                rw <= 0 ==> x == 0,
                rw > 0 ==> i32::MIN <= ry + rh - 1 && ry + rh <= i32::MAX && rx + rw - 1 <= i32::MAX,
                self.buffer@ == paint(
                    b0,
                    w,
                    |a: int, b: int| rx <= a < rx + x && (b == ry || b == ry + rh - 1),
                    color,
                ),
            decreases rw - x,
        {
            self.write_pixel(rx + x, ry, color);
            self.write_pixel(rx + x, ry + rh - 1, color);
            proof {
                assert(self.buffer@ =~= paint(
                    b0,
                    w,
                    |a: int, b: int| rx <= a < rx + x + 1 && (b == ry || b == ry + rh - 1),
                    color,
                ));
            }
            x = x + 1;
        }
        let mut y: i32 = 0;
        while y < rh
            invariant
                self.wf(),
                self.same_frame(*old(self)),
                w == self.width,
                0 <= y,
                rh > 0 ==> y <= rh,
                rh <= 0 ==> y == 0,
                rw > 0 ==> x == rw,
                rw <= 0 ==> x == 0,
                rh > 0 ==> i32::MIN <= rx + rw - 1 && rx + rw <= i32::MAX && ry + rh - 1 <= i32::MAX,
                self.buffer@ == paint(
                    b0,
                    w,
                    |a: int, b: int| (rx <= a < rx + rw && (b == ry || b == ry + rh - 1)) || (ry <= b < ry + y && (a
                        == rx || a == rx + rw - 1)),
                    color,
                ),
            decreases rh - y,
        {
            self.write_pixel(rx, ry + y, color);
            self.write_pixel(rx + rw - 1, ry + y, color);
            proof {
                assert(self.buffer@ =~= paint(
                    b0,
                    w,
                    |a: int, b: int| (rx <= a < rx + rw && (b == ry || b == ry + rh - 1)) || (ry <= b < ry + y + 1 && (a
                        == rx || a == rx + rw - 1)),
                    color,
                ));
            }
            y = y + 1;
        }
        assert(self.buffer@ =~= paint(
            b0,
            w,
            |a: int, b: int| border(rx as int, ry as int, rw as int, rh as int, a, b),
            color,
        ));
    }

    /// Draws the glyph of `c` with its top-left corner at `(cx, cy)`; only
    /// set glyph pixels are drawn, and characters without a glyph draw
    /// nothing.
    pub fn draw_char(&mut self, cx: i32, cy: i32, c: char, color: Color)
        requires
            old(self).wf(),
            forall|row: int, col: int|
                #[trigger] glyph_bit(c, row, col) ==> cx + col <= i32::MAX && cy + row <= i32::MAX,
        ensures
            final(self).wf(),
            final(self).same_frame(*old(self)),
            final(self).buffer@ == paint(
                old(self).buffer@,
                old(self).width as int,
                |a: int, b: int| glyph_bit(c, b - cy, a - cx),
                color,
            ),
    {
        let ghost w = self.width as int;
        let ghost b0 = self.buffer@;
        let codepoint = c as u32 as usize;
        if codepoint >= 128 {
            assert(self.buffer@ =~= paint(b0, w, |a: int, b: int| glyph_bit(c, b - cy, a - cx), color));
            return;
        }
        let bitmap = font_glyph(codepoint);
        let mut row: usize = 0;
        while row < 8
            invariant
                self.wf(),
                self.same_frame(*old(self)),
                w == self.width,
                row <= 8,
                (c as u32) < 128,
                codepoint == c as u32,
                bitmap@ == glyph(codepoint as int),
                forall|r: int, k: int| #[trigger] glyph_bit(c, r, k) ==> cx + k <= i32::MAX && cy + r <= i32::MAX,
                self.buffer@ == paint(b0, w, |a: int, b: int| glyph_bit(c, b - cy, a - cx) && b - cy < row, color),
            decreases 8 - row,
        {
            let row_val = bitmap[row];
            let mut col: i32 = 0;
            while col < 8
                invariant
                    self.wf(),
                    self.same_frame(*old(self)),
                    w == self.width,
                    row < 8,
                    0 <= col <= 8,
                    (c as u32) < 128,
                    codepoint == c as u32,
                    bitmap@ == glyph(codepoint as int),
                    row_val == bitmap@[row as int],
                    forall|r: int, k: int| #[trigger] glyph_bit(c, r, k) ==> cx + k <= i32::MAX && cy + r <= i32::MAX,
                    self.buffer@ == paint(
                        b0,
                        w,
                        |a: int, b: int| glyph_bit(c, b - cy, a - cx) && (b - cy < row || (b - cy == row && a - cx < col)),
                        color,
                    ),
                decreases 8 - col,
            {
                let bit_set = (row_val & (0x80u8 >> (col as u8))) != 0;
                proof {
                    assert(bit_set == glyph_bit(c, row as int, col as int));
                }
                if bit_set {
                    self.write_pixel(cx + col, cy + row as i32, color);
                }
                proof {
                    assert(self.buffer@ =~= paint(
                        b0,
                        w,
                        |a: int, b: int| glyph_bit(c, b - cy, a - cx) && (b - cy < row || (b - cy == row && a - cx < col + 1)),
                        color,
                    ));
                }
                col = col + 1;
            }
            proof {
                assert(self.buffer@ =~= paint(
                    b0,
                    w,
                    |a: int, b: int| glyph_bit(c, b - cy, a - cx) && b - cy < row + 1,
                    color,
                ));
            }
            row = row + 1;
        }
        assert(self.buffer@ =~= paint(b0, w, |a: int, b: int| glyph_bit(c, b - cy, a - cx), color));
    }

    /// Draws `text` from `(sx, sy)`, advancing eight pixels per character.
    pub fn draw_string(&mut self, sx: i32, sy: i32, text: &str, color: Color)
        requires
            old(self).wf(),
            sx + 8 * text@.len() <= i32::MAX,
            forall|i: int, row: int, col: int|
                0 <= i < text@.len() && #[trigger] glyph_bit(text@[i], row, col) ==> sy + row <= i32::MAX,
        ensures
            final(self).wf(),
            final(self).same_frame(*old(self)),
            final(self).buffer@ == string_paint(
                old(self).buffer@,
                old(self).width as int,
                sx as int,
                sy as int,
                text@,
                color,
            ),
    {
        let n = text.unicode_len();
        let mut x = sx;
        let mut i: usize = 0;
        assert(text@.subrange(0, 0) =~= Seq::<char>::empty());
        while i < n
            invariant
                self.wf(),
                self.same_frame(*old(self)),
                n == text@.len(),
                i <= n,
                x == sx + 8 * i,
                sx + 8 * text@.len() <= i32::MAX,
                forall|k: int, row: int, col: int|
                    0 <= k < text@.len() && #[trigger] glyph_bit(text@[k], row, col) ==> sy + row <= i32::MAX,
                self.buffer@ == string_paint(
                    old(self).buffer@,
                    old(self).width as int,
                    sx as int,
                    sy as int,
                    text@.subrange(0, i as int),
                    color,
                ),
            decreases n - i,
        {
            let c = text.get_char(i);
            proof {
                assert forall|row: int, col: int| #[trigger] glyph_bit(c, row, col) implies x + col <= i32::MAX
                    && sy + row <= i32::MAX by {
                    assert(glyph_bit(text@[i as int], row, col));
                }
            }
            self.draw_char(x, sy, c, color);
            proof {
                let t = text@.subrange(0, i + 1);
                assert(t.drop_last() =~= text@.subrange(0, i as int));
                assert(t.last() == c);
            }
            x = x + 8;
            i = i + 1;
        }
        assert(text@.subrange(0, n as int) =~= text@);
    }
}

/// Bound on window coordinates and sizes kept by the manager.
pub const GEOMETRY_LIMIT: i32 = 0x100_0000;

/// Windows in depth order (the last one on top) and the drag in progress.
pub struct WindowManager {
    /// Windows, bottom to top.
    pub windows: Vec<Window>,
    /// Index of the window being dragged.
    pub active_window_idx: Option<usize>,
    /// Whether a title bar is being dragged.
    pub is_dragging: bool,
    /// Horizontal grab offset within the dragged window.
    pub drag_offset_x: i32,
    /// Vertical grab offset relative to the dragged window's top.
    pub drag_offset_y: i32,
}

/// The window's position and size stay within `GEOMETRY_LIMIT`.
pub open spec fn geometry_ok(w: Window) -> bool {
    &&& -GEOMETRY_LIMIT <= w.x <= GEOMETRY_LIMIT
    &&& -GEOMETRY_LIMIT <= w.y <= GEOMETRY_LIMIT
    &&& 0 <= w.width <= GEOMETRY_LIMIT
    &&& 0 <= w.height <= GEOMETRY_LIMIT
}

/// `(mx, my)` is on the title bar, the 24 pixels above the client area.
pub open spec fn title_hit(w: Window, mx: int, my: int) -> bool {
    w.x <= mx < w.x + w.width && w.y - 24 <= my < w.y
}

/// `(mx, my)` is in the client area.
pub open spec fn body_hit(w: Window, mx: int, my: int) -> bool {
    w.x <= mx < w.x + w.width && w.y <= my < w.y + w.height
}

/// Index of the topmost window whose title bar (or, with `title` false,
/// client area) contains `(mx, my)`.
pub open spec fn top_hit(ws: Seq<Window>, mx: int, my: int, title: bool) -> Option<int>
    decreases ws.len(),
{
    if ws.len() == 0 {
        None
    } else if (if title {
        title_hit(ws.last(), mx, my)
    } else {
        body_hit(ws.last(), mx, my)
    }) {
        Some(ws.len() - 1)
    } else {
        top_hit(ws.drop_last(), mx, my, title)
    }
}

/// Where a dragged window's left edge lands: at least 50 pixels stay on the
/// left of the screen, and the edge stays left of 1230.
pub open spec fn clamp_x(w: Window, v: int) -> int {
    let left = 50 - w.width;
    let v1 = if v < left {
        left
    } else {
        v
    };
    if v1 > 1230 {
        1230
    } else {
        v1
    }
}

/// Where a dragged window's top lands: below the header (73) and with its
/// bottom above the tab bar (610), the latter winning.
pub open spec fn clamp_y(w: Window, v: int) -> int {
    let v1 = if v < 73 {
        73
    } else {
        v
    };
    if v1 > 610 - w.height {
        610 - w.height
    } else {
        v1
    }
}

/// `w1` is `w0` moved to `(x, y)`.
pub open spec fn moved_to(w0: Window, w1: Window, x: int, y: int) -> bool {
    &&& w1.x == x
    &&& w1.y == y
    &&& w1.id == w0.id
    &&& w1.title == w0.title
    &&& w1.width == w0.width
    &&& w1.height == w0.height
    &&& w1.is_active == w0.is_active
    &&& w1.buffer == w0.buffer
    &&& w1.prev_x == w0.prev_x
    &&& w1.prev_y == w0.prev_y
    &&& w1.prev_width == w0.prev_width
    &&& w1.prev_height == w0.prev_height
    &&& w1.has_prev == w0.has_prev
}

/// `w1` is `w0` with possibly another focus.
pub open spec fn refocused(w0: Window, w1: Window) -> bool {
    &&& w1.x == w0.x
    &&& w1.y == w0.y
    &&& w1.id == w0.id
    &&& w1.title == w0.title
    &&& w1.width == w0.width
    &&& w1.height == w0.height
    &&& w1.buffer == w0.buffer
    &&& w1.prev_x == w0.prev_x
    &&& w1.prev_y == w0.prev_y
    &&& w1.prev_width == w0.prev_width
    &&& w1.prev_height == w0.prev_height
    &&& w1.has_prev == w0.has_prev
}

/// `s1` is `s0` with window `idx` raised to the top and focused, the others
/// losing focus.
pub open spec fn raised(s0: Seq<Window>, s1: Seq<Window>, idx: int) -> bool {
    let rest = s0.remove(idx);
    &&& s1.len() == s0.len()
    &&& forall|i: int| 0 <= i < rest.len() ==> #[trigger] refocused(rest[i], s1[i]) && !s1[i].is_active
    &&& refocused(s0[idx], s1.last()) && s1.last().is_active
}

impl WindowManager {
    /// The dragged index names a window, and every window's geometry stays
    /// within `GEOMETRY_LIMIT`.
    pub open spec fn wf(&self) -> bool {
        &&& self.active_window_idx matches Some(i) ==> i < self.windows@.len()
        &&& forall|i: int| 0 <= i < self.windows@.len() ==> #[trigger] geometry_ok(self.windows@[i])
    }

    /// What a mouse report does. A release ends any drag. A press while
    /// dragging moves the dragged window to the pointer minus the grab
    /// offset (clamped) and keeps it on top. Otherwise a press on a title
    /// bar raises and focuses the topmost such window and starts dragging
    /// it; a press in a client area only raises and focuses it.
    pub open spec fn mouse_outcome(&self, after: Self, mx: int, my: int, clicked: bool) -> bool {
        let ws = self.windows@;
        let ws1 = after.windows@;
        if !clicked {
            &&& ws1 == ws
            &&& !after.is_dragging
            &&& after.active_window_idx is None
            &&& after.drag_offset_x == self.drag_offset_x
            &&& after.drag_offset_y == self.drag_offset_y
        } else if self.is_dragging {
            match self.active_window_idx {
                Some(idx) => {
                    let w = ws[idx as int];
                    let ny = clamp_y(w, my - self.drag_offset_y);
                    let nx = clamp_x(w, mx - self.drag_offset_x);
                    &&& ws1.len() == ws.len()
                    &&& forall|i: int| 0 <= i < ws.len() - 1 ==> #[trigger] ws1[i] == ws.remove(idx as int)[i]
                    &&& moved_to(w, ws1.last(), nx, ny)
                    &&& after.active_window_idx == Some((ws.len() - 1) as usize)
                    &&& after.is_dragging
                    &&& after.drag_offset_x == self.drag_offset_x
                    &&& after.drag_offset_y == self.drag_offset_y
                },
                None => ws1 == ws && after.is_dragging && after.active_window_idx is None
                    && after.drag_offset_x == self.drag_offset_x && after.drag_offset_y == self.drag_offset_y,
            }
        } else {
            match top_hit(ws, mx, my, true) {
                Some(idx) => {
                    &&& raised(ws, ws1, idx)
                    &&& after.drag_offset_x == mx - ws[idx].x
                    &&& after.drag_offset_y == my - ws[idx].y
                    &&& after.is_dragging
                    &&& after.active_window_idx == Some((ws.len() - 1) as usize)
                },
                None => {
                    &&& match top_hit(ws, mx, my, false) {
                        Some(idx) => raised(ws, ws1, idx),
                        None => ws1 == ws,
                    }
                    &&& !after.is_dragging
                    &&& after.active_window_idx == self.active_window_idx
                    &&& after.drag_offset_x == self.drag_offset_x
                    &&& after.drag_offset_y == self.drag_offset_y
                },
            }
        }
    }
}

impl WindowManager {
    /// Index of the topmost window whose title bar (or client area) contains
    /// `(mx, my)`.
    fn find_hit(&self, mx: i32, my: i32, title: bool) -> (r: Option<usize>)
        requires
            self.wf(),
        ensures
            r matches Some(i) ==> top_hit(self.windows@, mx as int, my as int, title) == Some(i as int),
            r is None ==> top_hit(self.windows@, mx as int, my as int, title) is None,
    {
        let mut i = self.windows.len();
        assert(self.windows@.subrange(0, i as int) =~= self.windows@);
        while i > 0
            invariant
                self.wf(),
                i <= self.windows@.len(),
                top_hit(self.windows@, mx as int, my as int, title) == top_hit(
                    self.windows@.subrange(0, i as int),
                    mx as int,
                    my as int,
                    title,
                ),
            decreases i,
        {
            let win = &self.windows[i - 1];
            proof {
                assert(geometry_ok(self.windows@[i - 1]));
                assert(self.windows@.subrange(0, i as int).drop_last() =~= self.windows@.subrange(0, i - 1));
                assert(self.windows@.subrange(0, i as int).last() == self.windows@[i - 1]);
            }
            let hit = if title {
                mx >= win.x && mx < win.x + win.width && my >= win.y - 24 && my < win.y
            } else {
                mx >= win.x && mx < win.x + win.width && my >= win.y && my < win.y + win.height
            };
            if hit {
                return Some(i - 1);
            }
            i = i - 1;
        }
        None
    }

    /// Takes window `idx` out, clears the focus of the rest and puts it back
    /// on top with the focus.
    fn raise(&mut self, idx: usize)
        requires
            old(self).wf(),
            idx < old(self).windows@.len(),
        ensures
            raised(old(self).windows@, final(self).windows@, idx as int),
            final(self).active_window_idx == old(self).active_window_idx,
            final(self).is_dragging == old(self).is_dragging,
            final(self).drag_offset_x == old(self).drag_offset_x,
            final(self).drag_offset_y == old(self).drag_offset_y,
    {
        let ghost s0 = self.windows@;
        let mut win = self.windows.remove(idx);
        let ghost rest = self.windows@;
        let n = self.windows.len();
        let mut k: usize = 0;
        while k < n
            invariant
                n == self.windows@.len(),
                rest.len() == n,
                k <= n,
                self.active_window_idx == old(self).active_window_idx,
                self.is_dragging == old(self).is_dragging,
                self.drag_offset_x == old(self).drag_offset_x,
                self.drag_offset_y == old(self).drag_offset_y,
                forall|i: int| 0 <= i < k ==> #[trigger] refocused(rest[i], self.windows@[i]) && !self.windows@[i].is_active,
                forall|i: int| k <= i < n ==> #[trigger] self.windows@[i] == rest[i],
            decreases n - k,
        {
            self.windows[k].is_active = false;
            k = k + 1;
        }
        win.is_active = true;
        self.windows.push(win);
    }

    /// Handles a mouse report: pointer at `(mx, my)`, left button `clicked`.
    pub fn handle_mouse(&mut self, mx: i32, my: i32, clicked: bool)
        requires
            old(self).wf(),
            clicked && old(self).is_dragging && old(self).active_window_idx is Some ==> i32::MIN <= mx
                - old(self).drag_offset_x <= i32::MAX && i32::MIN <= my - old(self).drag_offset_y <= i32::MAX,
        ensures
            final(self).wf(),
            old(self).mouse_outcome(*final(self), mx as int, my as int, clicked),
    {
        if clicked {
            if self.is_dragging {
                if let Some(idx) = self.active_window_idx {
                    let ghost s0 = self.windows@;
                    let mut win = self.windows.remove(idx);
                    proof {
                        assert(geometry_ok(s0[idx as int]));
                    }
                    let mut new_x = mx - self.drag_offset_x;
                    let mut new_y = my - self.drag_offset_y;
                    let top_limit: i32 = 48 + 25;
                    let bottom_limit = 610 - win.height;
                    if new_y < top_limit {
                        new_y = top_limit;
                    }
                    if new_y > bottom_limit {
                        new_y = bottom_limit;
                    }
                    let left_limit = -win.width + 50;
                    let right_limit: i32 = 1280 - 50;
                    if new_x < left_limit {
                        new_x = left_limit;
                    }
                    if new_x > right_limit {
                        new_x = right_limit;
                    }
                    win.x = new_x;
                    win.y = new_y;
                    self.windows.push(win);
                    self.active_window_idx = Some(self.windows.len() - 1);
                    proof {
                        assert forall|i: int| 0 <= i < self.windows@.len() implies #[trigger] geometry_ok(
                            self.windows@[i],
                        ) by {
                            if i < self.windows@.len() - 1 {
                                assert(self.windows@[i] == s0.remove(idx as int)[i]);
                                if i < idx {
                                    assert(s0.remove(idx as int)[i] == s0[i]);
                                } else {
                                    assert(s0.remove(idx as int)[i] == s0[i + 1]);
                                }
                                if i < idx {
                                    assert(geometry_ok(s0[i]));
                                } else {
                                    assert(geometry_ok(s0[i + 1]));
                                }
                            }
                        }
                    }
                }
            } else {
                let clicked_idx = self.find_hit(mx, my, true);
                if let Some(idx) = clicked_idx {
                    let ghost s0 = self.windows@;
                    proof {
                        lemma_top_hit(s0, mx as int, my as int, true);
                        assert(geometry_ok(s0[idx as int]));
                    }
                    let wx = self.windows[idx].x;
                    let wy = self.windows[idx].y;
                    self.raise(idx);
                    self.drag_offset_x = mx - wx;
                    self.drag_offset_y = my - wy;
                    self.is_dragging = true;
                    self.active_window_idx = Some(self.windows.len() - 1);
                    proof {
                        lemma_raised_geometry(s0, self.windows@, idx as int);
                    }
                } else {
                    let focus_idx = self.find_hit(mx, my, false);
                    if let Some(idx) = focus_idx {
                        let ghost s0 = self.windows@;
                        proof {
                            lemma_top_hit(s0, mx as int, my as int, false);
                        }
                        self.raise(idx);
                        proof {
                            lemma_raised_geometry(s0, self.windows@, idx as int);
                        }
                    }
                }
            }
        } else {
            self.is_dragging = false;
            self.active_window_idx = None;
        }
    }
}

/// A hit is a window of the list whose bar or area contains the point.
pub proof fn lemma_top_hit(ws: Seq<Window>, mx: int, my: int, title: bool)
    ensures
        top_hit(ws, mx, my, title) matches Some(i) ==> 0 <= i < ws.len() && (if title {
            title_hit(ws[i], mx, my)
        } else {
            body_hit(ws[i], mx, my)
        }),
    decreases ws.len(),
{
    if ws.len() > 0 {
        lemma_top_hit(ws.drop_last(), mx, my, title);
    }
}

/// Raising a window keeps every window's geometry.
proof fn lemma_raised_geometry(s0: Seq<Window>, s1: Seq<Window>, idx: int)
    requires
        0 <= idx < s0.len(),
        raised(s0, s1, idx),
        forall|i: int| 0 <= i < s0.len() ==> #[trigger] geometry_ok(s0[i]),
    ensures
        forall|i: int| 0 <= i < s1.len() ==> #[trigger] geometry_ok(s1[i]),
{
    let rest = s0.remove(idx);
    assert forall|i: int| 0 <= i < s1.len() implies #[trigger] geometry_ok(s1[i]) by {
        if i < s1.len() - 1 {
            assert(refocused(rest[i], s1[i]));
            if i < idx {
                assert(rest[i] == s0[i]);
                assert(geometry_ok(s0[i]));
            } else {
                assert(rest[i] == s0[i + 1]);
                assert(geometry_ok(s0[i + 1]));
            }
        } else {
            assert(geometry_ok(s0[idx]));
            assert(s1[i] == s1.last());
        }
    }
}

/// The last `k` decimal digits of `n`, without leading zeros.
pub open spec fn low_digits(n: nat, k: nat) -> Seq<char>
    decreases k,
{
    if n == 0 || k == 0 {
        Seq::empty()
    } else {
        low_digits(n / 10, (k - 1) as nat).push(digit_char(n % 10))
    }
}

/// The text of a counter: `0`, or its last fifteen decimal digits.
pub open spec fn ticks_text(n: nat) -> Seq<char> {
    if n == 0 {
        seq!['0']
    } else {
        low_digits(n, 15)
    }
}

/// Renders a counter in decimal, keeping at most its last fifteen digits.
pub fn format_ticks(ticks: usize) -> (s: String)
    ensures
        s@ == ticks_text(ticks as nat),
{
    proof {
        reveal_strlit("0");
        reveal_strlit("");
    }
    if ticks == 0 {
        return String::from_str("0");
    }
    let mut t = ticks;
    let mut i: usize = 15;
    let mut out = String::from_str("");
    while t > 0 && i > 0
        invariant
            i <= 15,
            low_digits(ticks as nat, 15) == low_digits(t as nat, i as nat) + out@,
        decreases i,
    {
        let d = t % 10;
        let ghost before = out@;
        out = String::from_str(digit_str(d)).concat(out.as_str());
        proof {
            assert(low_digits(t as nat, i as nat) == low_digits((t / 10) as nat, (i - 1) as nat).push(
                digit_char(d as nat),
            ));
            assert(low_digits((t / 10) as nat, (i - 1) as nat).push(digit_char(d as nat)) + before
                =~= low_digits((t / 10) as nat, (i - 1) as nat) + out@);
        }
        t = t / 10;
        i = i - 1;
    }
    assert(low_digits(t as nat, i as nat) =~= Seq::<char>::empty());
    assert(Seq::<char>::empty() + out@ =~= out@);
    out
}

impl WindowManager {
    /// The three start-up windows, bottom to top: "FLIGHT RADAR" (id 2),
    /// "SYSTEM TELEMETRY" (id 0) and the focused "VIRTUAL CONSOLE LOGS"
    /// (id 1); no drag in progress.
    pub fn new() -> (m: Self)
        ensures
            m.wf(),
            m.windows@.len() == 3,
            m.windows@[0].id == 2 && m.windows@[0].title == "FLIGHT RADAR" && m.windows@[0].x == 180
                && m.windows@[0].y == 360 && m.windows@[0].width == 280 && m.windows@[0].height == 140
                && !m.windows@[0].is_active,
            m.windows@[1].id == 0 && m.windows@[1].title == "SYSTEM TELEMETRY" && m.windows@[1].x == 80
                && m.windows@[1].y == 100 && m.windows@[1].width == 320 && m.windows@[1].height == 160
                && !m.windows@[1].is_active,
            m.windows@[2].id == 1 && m.windows@[2].title == "VIRTUAL CONSOLE LOGS" && m.windows@[2].x
                == 450 && m.windows@[2].y == 150 && m.windows@[2].width == 380 && m.windows@[2].height
                == 200 && m.windows@[2].is_active,
            forall|i: int|
                0 <= i < 3 ==> #[trigger] m.windows@[i].wf() && !m.windows@[i].has_prev
                    && m.windows@[i].buffer@ == Seq::new(
                    (m.windows@[i].width * m.windows@[i].height) as nat,
                    |p: int| panel_bg(),
                ),
            m.active_window_idx is None,
            !m.is_dragging,
            m.drag_offset_x == 0 && m.drag_offset_y == 0,
    {
        let w1 = Window::new(0, "SYSTEM TELEMETRY", 80, 100, 320, 160);
        let w2 = Window::new(1, "VIRTUAL CONSOLE LOGS", 450, 150, 380, 200);
        let w3 = Window::new(2, "FLIGHT RADAR", 180, 360, 280, 140);
        let mut windows: Vec<Window> = Vec::new();
        windows.push(w3);
        windows.push(w1);
        let mut w2_mut = w2;
        w2_mut.is_active = true;
        windows.push(w2_mut);
        WindowManager {
            windows,
            active_window_idx: None,
            is_dragging: false,
            drag_offset_x: 0,
            drag_offset_y: 0,
        }
    }
}

/// The colour `(r, g, b)`.
pub open spec fn rgb(r: u8, g: u8, b: u8) -> Color {
    Color { r, g, b }
}

/// `buf` with the rectangle `rw` by `rh` at `(rx, ry)` filled with `c`.
pub open spec fn rect_paint(buf: Seq<Color>, w: int, rx: int, ry: int, rw: int, rh: int, c: Color) -> Seq<Color> {
    paint(buf, w, |a: int, b: int| rx <= a < rx + rw && ry <= b < ry + rh, c)
}

/// `buf` with the frame of the rectangle `rw` by `rh` at `(rx, ry)` in `c`.
pub open spec fn border_paint(buf: Seq<Color>, w: int, rx: int, ry: int, rw: int, rh: int, c: Color) -> Seq<Color> {
    paint(buf, w, |a: int, b: int| border(rx, ry, rw, rh, a, b), c)
}

/// Bytes of `c` in UTF-8.
pub open spec fn utf8_width(c: char) -> nat {
    let u = c as u32;
    if u < 0x80 {
        1
    } else if u < 0x800 {
        2
    } else if u < 0x10000 {
        3
    } else {
        4
    }
}

/// Bytes of `s` in UTF-8.
pub open spec fn byte_len(s: Seq<char>) -> nat
    decreases s.len(),
{
    if s.len() == 0 {
        0
    } else {
        byte_len(s.drop_last()) + utf8_width(s.last())
    }
}

/// A log line as the log window shows it: lines longer than 40 bytes are
/// cut to their first 38 bytes and marked with `..`.
pub open spec fn shown_line(s: Seq<char>) -> Seq<char> {
    if byte_len(s) > 40 {
        s.take(choose|k: int| 0 <= k <= s.len() && byte_len(#[trigger] s.take(k)) == 38) + seq!['.', '.']
    } else {
        s
    }
}

/// A line longer than 40 bytes has a character boundary at byte 38.
pub open spec fn cut_ok(s: Seq<char>) -> bool {
    byte_len(s) > 40 ==> exists|k: int| 0 <= k <= s.len() && byte_len(#[trigger] s.take(k)) == 38
}

/// Colour of a log line: muted for echoed commands and system lines, red
/// for unknown commands, white otherwise.
pub open spec fn log_color(s: Seq<char>) -> Color {
    if (s.len() >= 3 && s.take(3) == ">>>"@) || contains_seq(s, "[SYSTEM]"@) {
        rgb(107, 114, 128)
    } else if contains_seq(s, "Unknown"@) {
        rgb(255, 60, 60)
    } else {
        rgb(243, 244, 246)
    }
}

/// `buf` with the log lines `lines` drawn from row 42, 18 pixels apart.
pub open spec fn log_paint(buf: Seq<Color>, w: int, lines: Seq<Seq<char>>) -> Seq<Color>
    decreases lines.len(),
{
    if lines.len() == 0 {
        buf
    } else {
        let i = lines.len() - 1;
        string_paint(log_paint(buf, w, lines.drop_last()), w, 24, 42 + i * 18, shown_line(lines.last()), log_color(lines.last()))
    }
}

/// The lines the log window shows: the last seven.
pub open spec fn visible_logs(logs: Seq<Seq<char>>) -> Seq<Seq<char>> {
    if logs.len() > 7 {
        logs.subrange(logs.len() - 7, logs.len() as int)
    } else {
        logs
    }
}

/// What a window shows at tick `ticks` with the console log `logs`: the
/// panel background with a thin frame, and then by window id the
/// telemetry figures with a progress bar (0), the last seven log lines (1),
/// or the radar readings with the sweep angle (2).
pub open spec fn window_contents(win: Window, ticks: usize, logs: Seq<Seq<char>>) -> Seq<Color> {
    let w = win.width as int;
    let h = win.height as int;
    let white = rgb(243, 244, 246);
    let green = rgb(32, 223, 127);
    let b = border_paint(Seq::new(win.buffer@.len(), |p: int| panel_bg()), w, 0, 0, w, h, rgb(40, 45, 55));
    if win.id == 0 {
        let b = string_paint(b, w, 16, 16, "\u{2605} SYSTEM TELEMETRY (LIVE)"@, rgb(0, 245, 255));
        let b = rect_paint(b, w, 16, 28, w - 32, 1, rgb(60, 65, 75));
        let b = string_paint(b, w, 24, 42, "System Ticks : "@ + ticks_text(ticks as nat), white);
        let b = string_paint(b, w, 24, 62, "Heap Free    : "@ + ticks_text(1024) + " KB"@, white);
        let b = string_paint(b, w, 24, 82, "Scheduler    : Round-Robin"@, rgb(107, 114, 128));
        let b = string_paint(b, w, 24, 102, "TMR Health   : 100.00%"@, green);
        let b = rect_paint(b, w, 24, 126, w - 48, 6, rgb(13, 15, 18));
        rect_paint(b, w, 24, 126, ((ticks as int) / 4) % (w - 48), 6, green)
    } else if win.id == 1 {
        let b = string_paint(b, w, 16, 16, "\u{2605} TTY SYSTEM LOGS (F1)"@, rgb(255, 0, 160));
        let b = rect_paint(b, w, 16, 28, w - 32, 1, rgb(60, 65, 75));
        log_paint(b, w, visible_logs(logs))
    } else if win.id == 2 {
        let b = string_paint(b, w, 16, 16, "\u{2605} ORBITAL RADAR SENSOR"@, green);
        let b = rect_paint(b, w, 16, 28, w - 32, 1, rgb(60, 65, 75));
        let b = string_paint(b, w, 24, 42, "SAT ID : AE-RUST-COMP"@, white);
        let b = string_paint(b, w, 24, 62, "ALT    : 340.21 KM"@, white);
        let b = string_paint(b, w, 24, 82, "VEL    : 7.68 KM/S"@, white);
        string_paint(b, w, 24, 102, "Sweep  : "@ + ticks_text(((ticks * 2) % 360) as nat) + " DEG"@, green)
    } else {
        b
    }
}

/// Every character takes at least one byte.
proof fn lemma_byte_len_ge(s: Seq<char>)
    ensures
        byte_len(s) >= s.len(),
    decreases s.len(),
{
    if s.len() > 0 {
        lemma_byte_len_ge(s.drop_last());
    }
}

/// UTF-8 width of a character.
fn char_width(c: char) -> (n: usize)
    ensures
        n == utf8_width(c),
{
    let u = c as u32;
    if u < 0x80 {
        1
    } else if u < 0x800 {
        2
    } else if u < 0x10000 {
        3
    } else {
        4
    }
}

/// The log line as shown, cut at 38 bytes when longer than 40.
fn shown_line_text(line: &str) -> (s: String)
    requires
        cut_ok(line@),
    ensures
        s@ == shown_line(line@),
{
    let n = line.unicode_len();
    let mut bytes: usize = 0;
    let mut cut: usize = 0;
    let mut found = false;
    let mut i: usize = 0;
    assert(line@.take(0) =~= Seq::<char>::empty());
    while i < n && bytes <= 40
        invariant
            i <= n,
            n == line@.len(),
            bytes == byte_len(line@.take(i as int)),
            bytes <= 44,
            found ==> cut <= i && byte_len(line@.take(cut as int)) == 38,
            !found ==> forall|k: int| 0 <= k <= i ==> byte_len(#[trigger] line@.take(k)) != 38,
        decreases n - i,
    {
        let c = line.get_char(i);
        assert(line@.take(i + 1).drop_last() =~= line@.take(i as int));
        bytes = bytes + char_width(c);
        i = i + 1;
        if !found && bytes == 38 {
            found = true;
            cut = i;
        }
    }
    if bytes > 40 {
        proof {
            if i < n {
                lemma_take_bytes_grow(line@, i as int, n as int);
            }
            assert(line@.take(n as int) =~= line@);
            let k = choose|k: int| 0 <= k <= line@.len() && byte_len(#[trigger] line@.take(k)) == 38;
            if k >= i {
                if k > i {
                    lemma_take_bytes_grow(line@, i as int, k);
                }
            }
            assert(found);
            lemma_take_bytes_unique(line@, k, cut as int);
        }
        proof {
            reveal_strlit("..");
        }
        let head = String::from_str(line.substring_char(0, cut));
        let out = head.concat("..");
        assert(line@.subrange(0, cut as int) =~= line@.take(cut as int));
        assert(out@ =~= line@.take(cut as int) + seq!['.', '.']);
        out
    } else {
        assert(line@.take(n as int) =~= line@);
        String::from_str(line)
    }
}

/// Two prefixes with the same byte length are the same prefix.
proof fn lemma_take_bytes_unique(s: Seq<char>, a: int, b: int)
    requires
        0 <= a <= s.len(),
        0 <= b <= s.len(),
        byte_len(s.take(a)) == byte_len(s.take(b)),
    ensures
        a == b,
    decreases s.len(),
{
    if a < b {
        lemma_take_bytes_grow(s, a, b);
    } else if b < a {
        lemma_take_bytes_grow(s, b, a);
    }
}

/// A longer prefix has more bytes.
proof fn lemma_take_bytes_grow(s: Seq<char>, a: int, b: int)
    requires
        0 <= a < b <= s.len(),
    ensures
        byte_len(s.take(a)) < byte_len(s.take(b)),
    decreases b - a,
{
    assert(s.take(b).drop_last() =~= s.take(b - 1));
    if a < b - 1 {
        lemma_take_bytes_grow(s, a, b - 1);
    }
}

/// The colour of a log line.
fn log_color_of(line: &str) -> (c: Color)
    ensures
        c == log_color(line@),
{
    proof {
        reveal_strlit(">>>");
    }
    let echoed = match strip_prefix_text(line, ">>>") {
        Some(_) => true,
        None => false,
    };
    proof {
        if line@.len() >= 3 {
            assert(line@.subrange(0, 3) =~= line@.take(3));
        }
    }
    if echoed || contains_text(line, "[SYSTEM]") {
        Color { r: 107, g: 114, b: 128 }
    } else if contains_text(line, "Unknown") {
        Color { r: 255, g: 60, b: 60 }
    } else {
        Color { r: 243, g: 244, b: 246 }
    }
}

/// The text of each log line.
pub open spec fn log_texts(logs: Seq<String>) -> Seq<Seq<char>> {
    logs.map_values(|s: String| s@)
}

/// At most `k` digits.
proof fn lemma_low_digits_len(n: nat, k: nat)
    ensures
        low_digits(n, k).len() <= k,
    decreases k,
{
    if n != 0 && k != 0 {
        lemma_low_digits_len(n / 10, (k - 1) as nat);
    }
}

/// A counter takes at most fifteen characters.
pub(crate) proof fn lemma_ticks_text_len(n: nat)
    ensures
        ticks_text(n).len() <= 15,
{
    lemma_low_digits_len(n, 15);
}

/// A shown log line has at most forty characters.
proof fn lemma_shown_line_len(s: Seq<char>)
    requires
        cut_ok(s),
    ensures
        shown_line(s).len() <= 40,
{
    lemma_byte_len_ge(s);
    if byte_len(s) > 40 {
        let k = choose|k: int| 0 <= k <= s.len() && byte_len(#[trigger] s.take(k)) == 38;
        lemma_byte_len_ge(s.take(k));
    }
}

impl Window {
    /// Redraws the canvas for tick `ticks`: see `window_contents`. The
    /// telemetry window needs more than 48 pixels of width for its progress
    /// bar, and each log line the log window shows that is longer than 40
    /// bytes must have a character boundary at byte 38.
    pub fn render_window_contents(&mut self, ticks: usize, _core: Option<&SystemCore>, logs: &[String])
        requires
            old(self).wf(),
            old(self).id <= 2 ==> old(self).width >= i32::MIN + 32,
            old(self).id == 0 ==> old(self).width > 48,
            old(self).id == 2 ==> ticks * 2 <= usize::MAX,
            old(self).id == 1 ==> forall|i: int|
                0 <= i < visible_logs(log_texts(logs@)).len() ==> cut_ok(
                    #[trigger] visible_logs(log_texts(logs@))[i],
                ),
        ensures
            final(self).wf(),
            final(self).same_frame(*old(self)),
            final(self).buffer@ == window_contents(*old(self), ticks, log_texts(logs@)),
    {
        let ghost w = self.width as int;
        let ghost h = self.height as int;
        let ghost lines = log_texts(logs@);
        self.clear(Color { r: 24, g: 28, b: 34 });
        assert(self.buffer@ =~= Seq::new(old(self).buffer@.len(), |p: int| panel_bg()));
        proof {
            if w > 0 {
                assert(h >= 0) by (nonlinear_arith)
                    requires
                        w > 0,
                        w * h >= 0,
                ;
            }
            if h > 0 {
                assert(w >= 0) by (nonlinear_arith)
                    requires
                        h > 0,
                        w * h >= 0,
                ;
            }
        }
        self.draw_border_rect(0, 0, self.width, self.height, Color { r: 40, g: 45, b: 55 });
        let white = Color { r: 243, g: 244, b: 246 };
        let green = Color { r: 32, g: 223, b: 127 };
        if self.id == 0 {
            proof {
                reveal_strlit("\u{2605} SYSTEM TELEMETRY (LIVE)");
                reveal_strlit("System Ticks : ");
                reveal_strlit("Heap Free    : ");
                reveal_strlit(" KB");
                reveal_strlit("Scheduler    : Round-Robin");
                reveal_strlit("TMR Health   : 100.00%");
                lemma_ticks_text_len(ticks as nat);
                lemma_ticks_text_len(1024);
            }
            self.draw_string(16, 16, "\u{2605} SYSTEM TELEMETRY (LIVE)", Color { r: 0, g: 245, b: 255 });
            self.draw_rect(16, 28, self.width - 32, 1, Color { r: 60, g: 65, b: 75 });
            let ticks_str = format_ticks(ticks);
            let line1 = String::from_str("System Ticks : ").concat(ticks_str.as_str());
            self.draw_string(24, 42, line1.as_str(), white);
            let heap_free: usize = 1024 * 1024;
            let heap_str = format_ticks(heap_free / 1024);
            let line2 = String::from_str("Heap Free    : ").concat(heap_str.as_str()).concat(" KB");
            self.draw_string(24, 62, line2.as_str(), white);
            self.draw_string(24, 82, "Scheduler    : Round-Robin", Color { r: 107, g: 114, b: 128 });
            self.draw_string(24, 102, "TMR Health   : 100.00%", green);
            let bar_width = ((ticks / 4) % (self.width as usize - 48)) as i32;
            self.draw_rect(24, 126, self.width - 48, 6, Color { r: 13, g: 15, b: 18 });
            self.draw_rect(24, 126, bar_width, 6, green);
        } else if self.id == 1 {
            proof {
                reveal_strlit("\u{2605} TTY SYSTEM LOGS (F1)");
            }
            self.draw_string(16, 16, "\u{2605} TTY SYSTEM LOGS (F1)", Color { r: 255, g: 0, b: 160 });
            self.draw_rect(16, 28, self.width - 32, 1, Color { r: 60, g: 65, b: 75 });
            let ghost before = self.buffer@;
            let total_lines = logs.len();
            let start_idx: usize = if total_lines > 7 { total_lines - 7 } else { 0 };
            let ghost shown = visible_logs(lines);
            assert(shown =~= lines.subrange(start_idx as int, total_lines as int));
            let mut idx: usize = start_idx;
            while idx < total_lines
                invariant
                    self.wf(),
                    self.same_frame(*old(self)),
                    w == self.width,
                    total_lines == logs@.len(),
                    lines == log_texts(logs@),
                    shown == visible_logs(lines),
                    shown == lines.subrange(start_idx as int, total_lines as int),
                    start_idx <= idx <= total_lines,
                    total_lines - start_idx <= 7,
                    forall|i: int| 0 <= i < shown.len() ==> cut_ok(#[trigger] shown[i]),
                    self.buffer@ == log_paint(before, w, shown.take(idx - start_idx)),
                decreases total_lines - idx,
            {
                let line = &logs[idx];
                let k: usize = idx - start_idx;
                let y: i32 = 42 + (k as i32) * 18;
                proof {
                    assert(shown[k as int] == line@);
                    lemma_shown_line_len(line@);
                }
                let display_line = shown_line_text(line.as_str());
                let color = log_color_of(line.as_str());
                self.draw_string(24, y, display_line.as_str(), color);
                proof {
                    let t = shown.take(k + 1);
                    assert(t.drop_last() =~= shown.take(k as int));
                    assert(t.last() == line@);
                }
                idx = idx + 1;
            }
            assert(shown.take(total_lines - start_idx) =~= shown);
        } else if self.id == 2 {
            proof {
                reveal_strlit("\u{2605} ORBITAL RADAR SENSOR");
                reveal_strlit("SAT ID : AE-RUST-COMP");
                reveal_strlit("ALT    : 340.21 KM");
                reveal_strlit("VEL    : 7.68 KM/S");
                reveal_strlit("Sweep  : ");
                reveal_strlit(" DEG");
                lemma_ticks_text_len(((ticks * 2) % 360) as nat);
            }
            self.draw_string(16, 16, "\u{2605} ORBITAL RADAR SENSOR", green);
            self.draw_rect(16, 28, self.width - 32, 1, Color { r: 60, g: 65, b: 75 });
            self.draw_string(24, 42, "SAT ID : AE-RUST-COMP", white);
            self.draw_string(24, 62, "ALT    : 340.21 KM", white);
            self.draw_string(24, 82, "VEL    : 7.68 KM/S", white);
            let sweep_val = (ticks * 2) % 360;
            let sweep_str = format_ticks(sweep_val);
            let coord = String::from_str("Sweep  : ").concat(sweep_str.as_str()).concat(" DEG");
            self.draw_string(24, 102, coord.as_str(), green);
        }
    }
}

} // verus!
