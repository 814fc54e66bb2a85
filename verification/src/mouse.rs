//! The PS/2 mouse packet decoder: three-byte packets of button flags and
//! signed motion, moving a cursor clamped to the screen.
use vstd::prelude::*;

verus! {

/// Screen width the cursor is clamped to.
pub const SCREEN_WIDTH: i32 = 1280;
/// Screen height the cursor is clamped to.
pub const SCREEN_HEIGHT: i32 = 720;

/// The decoder's state: where it is within a packet, the bytes received so
/// far, the cursor and the buttons.
#[derive(Debug, Clone, Copy)]
pub struct MouseDecoder {
    /// Index of the next byte within the packet (0, 1 or 2).
    pub cycle: u8,
    /// The flags byte of the current packet.
    pub flags: u8,
    /// The horizontal motion byte of the current packet.
    pub dx_byte: u8,
    /// Cursor column.
    pub x: i32,
    /// Cursor row.
    pub y: i32,
    /// Whether the left button is down.
    pub left: bool,
    /// Whether the right button is down.
    pub right: bool,
}

/// A decoded packet: the new cursor position and buttons.
#[derive(Debug, Clone, Copy, PartialEq, Eq, Structural)]
pub struct MouseReport {
    /// Cursor column.
    pub x: i32,
    /// Cursor row.
    pub y: i32,
    /// Whether the left button is down.
    pub left: bool,
    /// Whether the right button is down.
    pub right: bool,
}

/// The byte read as a two's-complement signed number.
pub open spec fn signed(b: u8) -> int {
    if b < 128 {
        b as int
    } else {
        b - 256
    }
}

/// `v` limited to `0..limit`.
pub open spec fn clamp(v: int, limit: int) -> int {
    if v < 0 {
        0
    } else if v >= limit {
        limit - 1
    } else {
        v
    }
}

/// The decoder after receiving `byte`, and the report it gives.
pub open spec fn decode_step(s: MouseDecoder, byte: u8) -> (MouseDecoder, Option<MouseReport>) {
    if s.cycle == 0 {
        if (byte / 8) % 2 == 1 {
            (MouseDecoder { cycle: 1, flags: byte, ..s }, None)
        } else {
            (s, None)
        }
    } else if s.cycle == 1 {
        (MouseDecoder { cycle: 2, dx_byte: byte, ..s }, None)
    } else if s.cycle == 2 {
        let left = s.flags % 2 == 1;
        let right = (s.flags / 2) % 2 == 1;
        let nx = clamp(s.x + signed(s.dx_byte), SCREEN_WIDTH as int) as i32;
        let ny = clamp(s.y - signed(byte), SCREEN_HEIGHT as int) as i32;
        (
            MouseDecoder { cycle: 0, x: nx, y: ny, left, right, ..s },
            Some(MouseReport { x: nx, y: ny, left, right }),
        )
    } else {
        (MouseDecoder { cycle: 0, ..s }, None)
    }
}

impl MouseDecoder {
    /// A decoder at the start of a packet with the cursor mid-screen and no
    /// button down.
    pub fn new() -> (d: Self)
        ensures
            d.cycle == 0 && d.x == 640 && d.y == 360 && !d.left && !d.right,
    {
        MouseDecoder { cycle: 0, flags: 0, dx_byte: 0, x: 640, y: 360, left: false, right: false }
    }

    /// Takes one byte from the mouse. The first byte of a packet must have
    /// bit 3 set (otherwise it is dropped to regain sync); the third byte
    /// completes the packet: the buttons are taken from the flags, the
    /// cursor moves right by the signed second byte and up by the signed
    /// third byte, clamped to the screen, and the report is returned.
    pub fn handle_byte(&mut self, byte: u8) -> (r: Option<MouseReport>)
        ensures
            (*final(self), r) == decode_step(*old(self), byte),
    {
        if self.cycle == 0 {
            proof {
                assert((byte & 0x08 != 0) == ((byte / 8) % 2 == 1)) by (bit_vector);
            }
            if byte & 0x08 != 0 {
                self.flags = byte;
                self.cycle = 1;
            }
            None
        } else if self.cycle == 1 {
            self.dx_byte = byte;
            self.cycle = 2;
            None
        } else if self.cycle == 2 {
            let flags = self.flags;
            proof {
                assert((flags & 0x01 != 0) == (flags % 2 == 1)) by (bit_vector);
                assert((flags & 0x02 != 0) == ((flags / 2) % 2 == 1)) by (bit_vector);
            }
            let dx: i64 = if self.dx_byte < 128 {
                self.dx_byte as i64
            } else {
                self.dx_byte as i64 - 256
            };
            let dy: i64 = if byte < 128 {
                byte as i64
            } else {
                byte as i64 - 256
            };
            let left = (flags & 0x01) != 0;
            let right = (flags & 0x02) != 0;
            let mut nx: i64 = self.x as i64 + dx;
            let mut ny: i64 = self.y as i64 - dy;
            if nx < 0 {
                nx = 0;
            }
            if nx >= SCREEN_WIDTH as i64 {
                nx = SCREEN_WIDTH as i64 - 1;
            }
            if ny < 0 {
                ny = 0;
            }
            if ny >= SCREEN_HEIGHT as i64 {
                ny = SCREEN_HEIGHT as i64 - 1;
            }
            let nx32 = nx as i32;
            let ny32 = ny as i32;
            self.cycle = 0;
            self.x = nx32;
            self.y = ny32;
            self.left = left;
            self.right = right;
            Some(MouseReport { x: nx32, y: ny32, left, right })
        } else {
            self.cycle = 0;
            None
        }
    }
}

} // verus!
