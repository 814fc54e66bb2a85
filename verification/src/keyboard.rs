//! Keyboard input: PS/2 scan code set 1 decoding with US and Turkish Q
//! layouts (Turkish letters shown as their closest ASCII letters).
use vstd::prelude::*;

verus! {

/// A decoded key event.
#[derive(Debug, Clone, Copy, PartialEq, Eq, Structural)]
pub enum KeyboardInput {
    /// A character key.
    Char(char),
    /// Backspace.
    Backspace,
    /// Enter.
    Enter,
    /// F1 (mode switch).
    F1,
    /// F2 (mode switch).
    F2,
    /// Page Up (scroll back).
    PageUp,
    /// Page Down (scroll forward).
    PageDown,
}

/// Keyboard layout.
#[derive(Debug, Clone, Copy, PartialEq, Eq, Structural)]
pub enum KeyboardLayout {
    /// US English.
    Us,
    /// Turkish Q, letters mapped to ASCII.
    Trq,
}

/// Decoder state: whether a shift key is held, and the layout.
pub struct KeyboardState {
    shift_pressed: bool,
    layout: KeyboardLayout,
}

/// The characters of a US key: `(plain, shifted)`.
pub open spec fn us_keys(code: u8) -> Option<(char, char)> {
    match code {
        0x02 => Some(('1', '!')),
        0x03 => Some(('2', '@')),
        0x04 => Some(('3', '#')),
        0x05 => Some(('4', '$')),
        0x06 => Some(('5', '%')),
        0x07 => Some(('6', '^')),
        0x08 => Some(('7', '&')),
        0x09 => Some(('8', '*')),
        0x0A => Some(('9', '(')),
        0x0B => Some(('0', ')')),
        0x0C => Some(('-', '_')),
        0x0D => Some(('=', '+')),
        0x10 => Some(('q', 'Q')),
        0x11 => Some(('w', 'W')),
        0x12 => Some(('e', 'E')),
        0x13 => Some(('r', 'R')),
        0x14 => Some(('t', 'T')),
        0x15 => Some(('y', 'Y')),
        0x16 => Some(('u', 'U')),
        0x17 => Some(('i', 'I')),
        0x18 => Some(('o', 'O')),
        0x19 => Some(('p', 'P')),
        0x1A => Some(('[', '{')),
        0x1B => Some((']', '}')),
        0x1E => Some(('a', 'A')),
        0x1F => Some(('s', 'S')),
        0x20 => Some(('d', 'D')),
        0x21 => Some(('f', 'F')),
        0x22 => Some(('g', 'G')),
        0x23 => Some(('h', 'H')),
        0x24 => Some(('j', 'J')),
        0x25 => Some(('k', 'K')),
        0x26 => Some(('l', 'L')),
        0x27 => Some((';', ':')),
        0x28 => Some(('\'', '"')),
        0x2C => Some(('z', 'Z')),
        0x2D => Some(('x', 'X')),
        0x2E => Some(('c', 'C')),
        0x2F => Some(('v', 'V')),
        0x30 => Some(('b', 'B')),
        0x31 => Some(('n', 'N')),
        0x32 => Some(('m', 'M')),
        0x33 => Some((',', '<')),
        0x34 => Some(('.', '>')),
        0x35 => Some(('/', '?')),
        0x39 => Some((' ', ' ')),
        _ => None,
    }
}

/// The characters of a Turkish Q key: `(plain, shifted)`.
pub open spec fn trq_keys(code: u8) -> Option<(char, char)> {
    match code {
        0x02 => Some(('1', '!')),
        0x03 => Some(('2', '\'')),
        0x04 => Some(('3', '^')),
        0x05 => Some(('4', '+')),
        0x06 => Some(('5', '%')),
        0x07 => Some(('6', '&')),
        0x08 => Some(('7', '/')),
        0x09 => Some(('8', '(')),
        0x0A => Some(('9', ')')),
        0x0B => Some(('0', '=')),
        0x0C => Some(('*', '?')),
        0x0D => Some(('-', '_')),
        0x10 => Some(('q', 'Q')),
        0x11 => Some(('w', 'W')),
        0x12 => Some(('e', 'E')),
        0x13 => Some(('r', 'R')),
        0x14 => Some(('t', 'T')),
        0x15 => Some(('y', 'Y')),
        0x16 => Some(('u', 'U')),
        0x17 => Some(('i', 'I')),
        0x18 => Some(('o', 'O')),
        0x19 => Some(('p', 'P')),
        0x1A => Some(('g', 'G')),
        0x1B => Some(('u', 'U')),
        0x1E => Some(('a', 'A')),
        0x1F => Some(('s', 'S')),
        0x20 => Some(('d', 'D')),
        0x21 => Some(('f', 'F')),
        0x22 => Some(('g', 'G')),
        0x23 => Some(('h', 'H')),
        0x24 => Some(('j', 'J')),
        0x25 => Some(('k', 'K')),
        0x26 => Some(('l', 'L')),
        0x27 => Some(('s', 'S')),
        0x28 => Some(('i', 'I')),
        0x2B => Some((',', ';')),
        0x2C => Some(('z', 'Z')),
        0x2D => Some(('x', 'X')),
        0x2E => Some(('c', 'C')),
        0x2F => Some(('v', 'V')),
        0x30 => Some(('b', 'B')),
        0x31 => Some(('n', 'N')),
        0x32 => Some(('m', 'M')),
        0x33 => Some(('o', 'O')),
        0x34 => Some(('c', 'C')),
        0x35 => Some(('.', ':')),
        0x39 => Some((' ', ' ')),
        _ => None,
    }
}

/// The character a make code gives in `layout`, with or without shift.
pub open spec fn key_char(layout: KeyboardLayout, code: u8, shift: bool) -> Option<char> {
    let keys = match layout {
        KeyboardLayout::Us => us_keys(code),
        KeyboardLayout::Trq => trq_keys(code),
    };
    match keys {
        Some((plain, shifted)) => Some(if shift { shifted } else { plain }),
        None => None,
    }
}

/// Translates a make code to the character it gives.
fn translate_scancode(scancode: u8, shift: bool, layout: KeyboardLayout) -> (r: Option<char>)
    ensures
        r == key_char(layout, scancode, shift),
{
    match layout {
        KeyboardLayout::Us => {
            let char_map = match scancode {
                0x02 => if shift {
                    '!'
                } else {
                    '1'
                },
                0x03 => if shift {
                    '@'
                } else {
                    '2'
                },
                0x04 => if shift {
                    '#'
                } else {
                    '3'
                },
                0x05 => if shift {
                    '$'
                } else {
                    '4'
                },
                0x06 => if shift {
                    '%'
                } else {
                    '5'
                },
                0x07 => if shift {
                    '^'
                } else {
                    '6'
                },
                0x08 => if shift {
                    '&'
                } else {
                    '7'
                },
                0x09 => if shift {
                    '*'
                } else {
                    '8'
                },
                0x0A => if shift {
                    '('
                } else {
                    '9'
                },
                0x0B => if shift {
                    ')'
                } else {
                    '0'
                },
                0x0C => if shift {
                    '_'
                } else {
                    '-'
                },
                0x0D => if shift {
                    '+'
                } else {
                    '='
                },
                0x10 => if shift {
                    'Q'
                } else {
                    'q'
                },
                0x11 => if shift {
                    'W'
                } else {
                    'w'
                },
                0x12 => if shift {
                    'E'
                } else {
                    'e'
                },
                0x13 => if shift {
                    'R'
                } else {
                    'r'
                },
                0x14 => if shift {
                    'T'
                } else {
                    't'
                },
                0x15 => if shift {
                    'Y'
                } else {
                    'y'
                },
                0x16 => if shift {
                    'U'
                } else {
                    'u'
                },
                0x17 => if shift {
                    'I'
                } else {
                    'i'
                },
                0x18 => if shift {
                    'O'
                } else {
                    'o'
                },
                0x19 => if shift {
                    'P'
                } else {
                    'p'
                },
                0x1A => if shift {
                    '{'
                } else {
                    '['
                },
                0x1B => if shift {
                    '}'
                } else {
                    ']'
                },
                0x1E => if shift {
                    'A'
                } else {
                    'a'
                },
                0x1F => if shift {
                    'S'
                } else {
                    's'
                },
                0x20 => if shift {
                    'D'
                } else {
                    'd'
                },
                0x21 => if shift {
                    'F'
                } else {
                    'f'
                },
                0x22 => if shift {
                    'G'
                } else {
                    'g'
                },
                0x23 => if shift {
                    'H'
                } else {
                    'h'
                },
                0x24 => if shift {
                    'J'
                } else {
                    'j'
                },
                0x25 => if shift {
                    'K'
                } else {
                    'k'
                },
                0x26 => if shift {
                    'L'
                } else {
                    'l'
                },
                0x27 => if shift {
                    ':'
                } else {
                    ';'
                },
                0x28 => if shift {
                    '"'
                } else {
                    '\''
                },
                0x2C => if shift {
                    'Z'
                } else {
                    'z'
                },
                0x2D => if shift {
                    'X'
                } else {
                    'x'
                },
                0x2E => if shift {
                    'C'
                } else {
                    'c'
                },
                0x2F => if shift {
                    'V'
                } else {
                    'v'
                },
                0x30 => if shift {
                    'B'
                } else {
                    'b'
                },
                0x31 => if shift {
                    'N'
                } else {
                    'n'
                },
                0x32 => if shift {
                    'M'
                } else {
                    'm'
                },
                0x33 => if shift {
                    '<'
                } else {
                    ','
                },
                0x34 => if shift {
                    '>'
                } else {
                    '.'
                },
                0x35 => if shift {
                    '?'
                } else {
                    '/'
                },
                0x39 => ' ',
                _ => {
                    return None;
                },
            };
            Some(char_map)
        },
        KeyboardLayout::Trq => {
            let char_map = match scancode {
                0x02 => if shift {
                    '!'
                } else {
                    '1'
                },
                0x03 => if shift {
                    '\''
                } else {
                    '2'
                },
                0x04 => if shift {
                    '^'
                } else {
                    '3'
                },
                0x05 => if shift {
                    '+'
                } else {
                    '4'
                },
                0x06 => if shift {
                    '%'
                } else {
                    '5'
                },
                0x07 => if shift {
                    '&'
                } else {
                    '6'
                },
                0x08 => if shift {
                    '/'
                } else {
                    '7'
                },
                0x09 => if shift {
                    '('
                } else {
                    '8'
                },
                0x0A => if shift {
                    ')'
                } else {
                    '9'
                },
                0x0B => if shift {
                    '='
                } else {
                    '0'
                },
                0x0C => if shift {
                    '?'
                } else {
                    '*'
                },
                0x0D => if shift {
                    '_'
                } else {
                    '-'
                },
                0x10 => if shift {
                    'Q'
                } else {
                    'q'
                },
                0x11 => if shift {
                    'W'
                } else {
                    'w'
                },
                0x12 => if shift {
                    'E'
                } else {
                    'e'
                },
                0x13 => if shift {
                    'R'
                } else {
                    'r'
                },
                0x14 => if shift {
                    'T'
                } else {
                    't'
                },
                0x15 => if shift {
                    'Y'
                } else {
                    'y'
                },
                0x16 => if shift {
                    'U'
                } else {
                    'u'
                },
                0x17 => if shift {
                    'I'
                } else {
                    'i'
                },
                0x18 => if shift {
                    'O'
                } else {
                    'o'
                },
                0x19 => if shift {
                    'P'
                } else {
                    'p'
                },
                0x1A => if shift {
                    'G'
                } else {
                    'g'
                },
                0x1B => if shift {
                    'U'
                } else {
                    'u'
                },
                0x1E => if shift {
                    'A'
                } else {
                    'a'
                },
                0x1F => if shift {
                    'S'
                } else {
                    's'
                },
                0x20 => if shift {
                    'D'
                } else {
                    'd'
                },
                0x21 => if shift {
                    'F'
                } else {
                    'f'
                },
                0x22 => if shift {
                    'G'
                } else {
                    'g'
                },
                0x23 => if shift {
                    'H'
                } else {
                    'h'
                },
                0x24 => if shift {
                    'J'
                } else {
                    'j'
                },
                0x25 => if shift {
                    'K'
                } else {
                    'k'
                },
                0x26 => if shift {
                    'L'
                } else {
                    'l'
                },
                0x27 => if shift {
                    'S'
                } else {
                    's'
                },
                0x28 => if shift {
                    'I'
                } else {
                    'i'
                },
                0x2B => if shift {
                    ';'
                } else {
                    ','
                },
                0x2C => if shift {
                    'Z'
                } else {
                    'z'
                },
                0x2D => if shift {
                    'X'
                } else {
                    'x'
                },
                0x2E => if shift {
                    'C'
                } else {
                    'c'
                },
                0x2F => if shift {
                    'V'
                } else {
                    'v'
                },
                0x30 => if shift {
                    'B'
                } else {
                    'b'
                },
                0x31 => if shift {
                    'N'
                } else {
                    'n'
                },
                0x32 => if shift {
                    'M'
                } else {
                    'm'
                },
                0x33 => if shift {
                    'O'
                } else {
                    'o'
                },
                0x34 => if shift {
                    'C'
                } else {
                    'c'
                },
                0x35 => if shift {
                    ':'
                } else {
                    '.'
                },
                0x39 => ' ',
                _ => {
                    return None;
                },
            };
            Some(char_map)
        },
    }
}

/// What a scan code does to a decoder with shift state `shift`: the new
/// shift state and the event produced. Shift make codes set the state and
/// shift break codes clear it; the special keys give their events; other
/// make codes give their character, other break codes nothing.
pub open spec fn scancode_effect(shift: bool, layout: KeyboardLayout, code: u8) -> (bool, Option<KeyboardInput>) {
    if code == 0x2A || code == 0x36 {
        (true, None)
    } else if code == 0xAA || code == 0xB6 {
        (false, None)
    } else if code == 0x0E {
        (shift, Some(KeyboardInput::Backspace))
    } else if code == 0x1C {
        (shift, Some(KeyboardInput::Enter))
    } else if code == 0x3B {
        (shift, Some(KeyboardInput::F1))
    } else if code == 0x3C {
        (shift, Some(KeyboardInput::F2))
    } else if code == 0x49 {
        (shift, Some(KeyboardInput::PageUp))
    } else if code == 0x51 {
        (shift, Some(KeyboardInput::PageDown))
    } else if code < 0x80 {
        match key_char(layout, code, shift) {
            Some(c) => (shift, Some(KeyboardInput::Char(c))),
            None => (shift, None),
        }
    } else {
        (shift, None)
    }
}

/// Decoding `code` took the decoder from `k0` to `k1` and gave `r`.
pub open spec fn decoded(k0: KeyboardState, code: u8, k1: KeyboardState, r: Option<KeyboardInput>) -> bool {
    &&& (k1.shift(), r) == scancode_effect(k0.shift(), k0.active_layout(), code)
    &&& k1.active_layout() == k0.active_layout()
}

/// Releasing either shift key (break code 0xAA or 0xB6) gives no event and
/// leaves shift released, whatever was held before; a character key pressed
/// next gives its unshifted character.
pub proof fn law_shift_release(
    k0: KeyboardState,
    k1: KeyboardState,
    k2: KeyboardState,
    brk: u8,
    code: u8,
    r1: Option<KeyboardInput>,
    r2: Option<KeyboardInput>,
)
    requires
        brk == 0xAA || brk == 0xB6,
        decoded(k0, brk, k1, r1),
        decoded(k1, code, k2, r2),
        key_char(k0.active_layout(), code, false) is Some,
    ensures
        !k1.shift(),
        r1 is None,
        !k2.shift(),
        r2 == Some(KeyboardInput::Char(key_char(k0.active_layout(), code, false)->0)),
{
    assert(code < 0x80 && code != 0x2A && code != 0x36 && code != 0x0E && code != 0x1C && code != 0x3B
        && code != 0x3C && code != 0x49 && code != 0x51);
}

/// Pressing either shift key (make code 0x2A or 0x36) gives no event and
/// holds shift, whatever was held before; a character key pressed next gives
/// its shifted character.
pub proof fn law_shift_press(
    k0: KeyboardState,
    k1: KeyboardState,
    k2: KeyboardState,
    mk: u8,
    code: u8,
    r1: Option<KeyboardInput>,
    r2: Option<KeyboardInput>,
)
    requires
        mk == 0x2A || mk == 0x36,
        decoded(k0, mk, k1, r1),
        decoded(k1, code, k2, r2),
        key_char(k0.active_layout(), code, true) is Some,
    ensures
        k1.shift(),
        r1 is None,
        k2.shift(),
        r2 == Some(KeyboardInput::Char(key_char(k0.active_layout(), code, true)->0)),
{
    assert(code < 0x80 && code != 0xAA && code != 0xB6 && code != 0x0E && code != 0x1C && code != 0x3B
        && code != 0x3C && code != 0x49 && code != 0x51);
}

impl KeyboardState {
    /// Whether a shift key is held.
    pub closed spec fn shift(&self) -> bool {
        self.shift_pressed
    }

    /// The active layout.
    pub closed spec fn active_layout(&self) -> KeyboardLayout {
        self.layout
    }

    /// A decoder with no shift held and the US layout.
    pub fn new() -> (s: Self)
        ensures
            !s.shift(),
            s.active_layout() == KeyboardLayout::Us,
    {
        KeyboardState { shift_pressed: false, layout: KeyboardLayout::Us }
    }

    /// Selects the layout.
    pub fn set_layout(&mut self, layout: KeyboardLayout)
        ensures
            final(self).active_layout() == layout,
            final(self).shift() == old(self).shift(),
    {
        self.layout = layout;
    }

    /// Decodes one scan code.
    pub fn handle_scancode(&mut self, scancode: u8) -> (r: Option<KeyboardInput>)
        ensures
            (final(self).shift(), r) == scancode_effect(old(self).shift(), old(self).active_layout(), scancode),
            final(self).active_layout() == old(self).active_layout(),
            decoded(*old(self), scancode, *final(self), r),
            scancode == 0x2A || scancode == 0x36 ==> final(self).shift() && r is None,
            scancode == 0xAA || scancode == 0xB6 ==> !final(self).shift() && r is None,
    {
        match scancode {
            0x2A | 0x36 => {
                self.shift_pressed = true;
                None
            },
            0xAA | 0xB6 => {
                self.shift_pressed = false;
                None
            },
            0x0E => Some(KeyboardInput::Backspace),
            0x1C => Some(KeyboardInput::Enter),
            0x3B => Some(KeyboardInput::F1),
            0x3C => Some(KeyboardInput::F2),
            0x49 => Some(KeyboardInput::PageUp),
            0x51 => Some(KeyboardInput::PageDown),
            code => {
                if code & 0x80 == 0 {
                    assert(code & 0x80 == 0 <==> code < 0x80) by (bit_vector);
                    if let Some(c) = translate_scancode(code, self.shift_pressed, self.layout) {
                        Some(KeyboardInput::Char(c))
                    } else {
                        None
                    }
                } else {
                    assert(code & 0x80 != 0 <==> code >= 0x80) by (bit_vector);
                    None
                }
            },
        }
    }
}

/// The key a byte received on the serial line stands for: carriage return
/// and line feed are Enter, backspace and delete are Backspace, printable
/// ASCII is that character, anything else nothing.
pub open spec fn serial_key(byte: u8) -> Option<KeyboardInput> {
    if byte == 0x0D || byte == 0x0A {
        Some(KeyboardInput::Enter)
    } else if byte == 0x08 || byte == 0x7F {
        Some(KeyboardInput::Backspace)
    } else if 0x20 <= byte <= 0x7E {
        Some(KeyboardInput::Char(byte as char))
    } else {
        None
    }
}

/// Decodes a byte received on the serial line.
pub fn decode_serial_byte(byte: u8) -> (r: Option<KeyboardInput>)
    ensures
        r == serial_key(byte),
{
    match byte {
        0x0D | 0x0A => Some(KeyboardInput::Enter),
        0x08 | 0x7F => Some(KeyboardInput::Backspace),
        0x20..=0x7E => Some(KeyboardInput::Char(byte as char)),
        _ => None,
    }
}

} // verus!
