//! Decimal and hexadecimal rendering of numbers for log lines.
use vstd::prelude::*;
use vstd::string::*;
use vstd::utf8::{encode_utf8, decode_utf8, valid_utf8};
use vstd::slice::slice_subrange;

verus! {

/// The ASCII digit for `d` (0..=15), with uppercase letters above 9.
pub open spec fn digit_char(d: nat) -> char {
    if d == 0 { '0' }
    else if d == 1 { '1' }
    else if d == 2 { '2' }
    else if d == 3 { '3' }
    else if d == 4 { '4' }
    else if d == 5 { '5' }
    else if d == 6 { '6' }
    else if d == 7 { '7' }
    else if d == 8 { '8' }
    else if d == 9 { '9' }
    else if d == 10 { 'A' }
    else if d == 11 { 'B' }
    else if d == 12 { 'C' }
    else if d == 13 { 'D' }
    else if d == 14 { 'E' }
    else { 'F' }
}

/// Decimal rendering of `n`, without leading zeros.
pub open spec fn dec(n: nat) -> Seq<char>
    decreases n,
{
    if n < 10 {
        seq![digit_char(n)]
    } else {
        dec(n / 10).push(digit_char(n % 10))
    }
}

/// Rendering of a byte as `0x` and two uppercase hexadecimal digits.
pub open spec fn hex_byte(b: u8) -> Seq<char> {
    seq!['0', 'x', digit_char((b / 16) as nat), digit_char((b % 16) as nat)]
}

/// The one-character string of digit `d`.
pub(crate) fn digit_str(d: usize) -> (s: &'static str)
    requires
        d < 16,
    ensures
        s@ == seq![digit_char(d as nat)],
{
    proof {
        reveal_strlit("0");
        reveal_strlit("1");
        reveal_strlit("2");
        reveal_strlit("3");
        reveal_strlit("4");
        reveal_strlit("5");
        reveal_strlit("6");
        reveal_strlit("7");
        reveal_strlit("8");
        reveal_strlit("9");
        reveal_strlit("A");
        reveal_strlit("B");
        reveal_strlit("C");
        reveal_strlit("D");
        reveal_strlit("E");
        reveal_strlit("F");
    }
    if d == 0 { "0" }
    else if d == 1 { "1" }
    else if d == 2 { "2" }
    else if d == 3 { "3" }
    else if d == 4 { "4" }
    else if d == 5 { "5" }
    else if d == 6 { "6" }
    else if d == 7 { "7" }
    else if d == 8 { "8" }
    else if d == 9 { "9" }
    else if d == 10 { "A" }
    else if d == 11 { "B" }
    else if d == 12 { "C" }
    else if d == 13 { "D" }
    else if d == 14 { "E" }
    else { "F" }
}

/// Decimal rendering of a number.
pub fn fmt_dec(n: usize) -> (s: String)
    ensures
        s@ == dec(n as nat),
    decreases n,
{
    if n < 10 {
        String::from_str(digit_str(n))
    } else {
        let head = fmt_dec(n / 10);
        head.concat(digit_str(n % 10))
    }
}

/// Rendering of a byte as `0x` followed by two uppercase hexadecimal digits.
pub fn fmt_hex_byte(b: u8) -> (s: String)
    ensures
        s@ == hex_byte(b),
{
    proof {
        reveal_strlit("0x");
    }
    let s = String::from_str("0x");
    let s = s.concat(digit_str((b / 16) as usize));
    s.concat(digit_str((b % 16) as usize))
}

/// Hexadecimal rendering of `n` in uppercase, without leading zeros.
pub open spec fn hex(n: nat) -> Seq<char>
    decreases n,
{
    if n < 16 {
        seq![digit_char(n)]
    } else {
        hex(n / 16).push(digit_char(n % 16))
    }
}

/// Hexadecimal rendering of a number in uppercase, without leading zeros.
pub fn fmt_hex(n: usize) -> (s: String)
    ensures
        s@ == hex(n as nat),
    decreases n,
{
    if n < 16 {
        String::from_str(digit_str(n))
    } else {
        let head = fmt_hex(n / 16);
        head.concat(digit_str(n % 16))
    }
}

/// `ToString::to_string` on a `char`: the string of that one character.
#[verifier::external_body]
pub(crate) fn char_string(c: char) -> (s: String)
    ensures
        s@ == seq![c],
{
    c.to_string()
}

/// `core::str::from_utf8`: the text that `bytes` encode, when they are
/// valid UTF-8.
#[verifier::external_body]
pub(crate) fn text_from_utf8<'a>(bytes: &'a [u8]) -> (r: Option<&'a str>)
    ensures
        r is Some <==> valid_utf8(bytes@),
        r matches Some(t) ==> t@ == decode_utf8(bytes@),
{
    match core::str::from_utf8(bytes) {
        Ok(t) => Some(t),
        Err(_) => None,
    }
}

/// The bytes a bounded writer keeps: `buf` with `bytes` written at `pos`,
/// as many as fit.
pub open spec fn buffered(buf: Seq<u8>, pos: int, bytes: Seq<u8>) -> Seq<u8> {
    let n = if buf.len() - pos < bytes.len() {
        buf.len() - pos
    } else {
        bytes.len() as int
    };
    buf.subrange(0, pos) + bytes.subrange(0, n) + buf.subrange(pos + n, buf.len() as int)
}

/// The state of a bounded writer (buffer and bytes written) after it is
/// handed `bytes`.
pub open spec fn written(st: (Seq<u8>, nat), bytes: Seq<u8>) -> (Seq<u8>, nat) {
    let n = if st.0.len() - st.1 < bytes.len() {
        st.0.len() - st.1
    } else {
        bytes.len() as int
    };
    (buffered(st.0, st.1 as int, bytes), (st.1 + n) as nat)
}

/// Writing `b1` and then `b2` leaves a bounded writer as writing `b1`
/// followed by `b2` at once does.
pub proof fn law_writes_compose(st: (Seq<u8>, nat), b1: Seq<u8>, b2: Seq<u8>)
    requires
        st.1 <= st.0.len(),
    ensures
        written(written(st, b1), b2) == written(st, b1 + b2),
{
    let (buf, pos) = st;
    let s1 = written(st, b1);
    let s2 = written(s1, b2);
    let s3 = written(st, b1 + b2);
    assert(s1.0.len() == buf.len());
    assert(s2.1 == s3.1);
    assert(s2.0 =~= s3.0);
}

/// The byte strings of `bs` one after another.
pub open spec fn joined(bs: Seq<Seq<u8>>) -> Seq<u8>
    decreases bs.len(),
{
    if bs.len() == 0 {
        Seq::empty()
    } else {
        joined(bs.drop_last()) + bs.last()
    }
}

/// The state of a bounded writer after it is handed each of `bs` in turn.
pub open spec fn written_all(st: (Seq<u8>, nat), bs: Seq<Seq<u8>>) -> (Seq<u8>, nat)
    decreases bs.len(),
{
    if bs.len() == 0 {
        st
    } else {
        written(written_all(st, bs.drop_last()), bs.last())
    }
}

/// Any number of writes leave a bounded writer as one write of all their
/// bytes at once does: the text cut to the buffer's room.
pub proof fn law_writes_join(st: (Seq<u8>, nat), bs: Seq<Seq<u8>>)
    requires
        st.1 <= st.0.len(),
    ensures
        written_all(st, bs) == written(st, joined(bs)),
    decreases bs.len(),
{
    if bs.len() == 0 {
        assert(buffered(st.0, st.1 as int, Seq::empty()) =~= st.0);
        assert(written(st, Seq::empty()) == st);
    } else {
        law_writes_join(st, bs.drop_last());
        law_writes_compose(st, joined(bs.drop_last()), bs.last());
    }
}

/// The text a bounded writer in state `st` holds: its written bytes
/// decoded, or nothing when they are not valid UTF-8.
pub open spec fn writer_text(st: (Seq<u8>, nat)) -> Seq<char> {
    let b = st.0.subrange(0, st.1 as int);
    if valid_utf8(b) {
        decode_utf8(b)
    } else {
        Seq::empty()
    }
}

/// A writer that starts empty and is handed `bs` in turn holds the joined
/// bytes cut to the buffer's length, as text when that cut is valid UTF-8
/// and as nothing otherwise.
pub proof fn law_writer_text(buf: Seq<u8>, bs: Seq<Seq<u8>>)
    ensures
        ({
            let t = joined(bs);
            let m = if buf.len() < t.len() { buf.len() as int } else { t.len() as int };
            let st = written_all((buf, 0nat), bs);
            &&& st.0.subrange(0, st.1 as int) == t.subrange(0, m)
            &&& writer_text(st) == if valid_utf8(t.subrange(0, m)) {
                decode_utf8(t.subrange(0, m))
            } else {
                Seq::empty()
            }
        }),
{
    law_writes_join((buf, 0nat), bs);
    let t = joined(bs);
    let m = if buf.len() < t.len() { buf.len() as int } else { t.len() as int };
    let st = written((buf, 0nat), t);
    assert(st.0.subrange(0, st.1 as int) =~= t.subrange(0, m));
}

/// A writer of text into a fixed buffer that drops what does not fit.
pub struct StrbufWriter {
    buf: Vec<u8>,
    pos: usize,
}

impl View for StrbufWriter {
    type V = (Seq<u8>, nat);

    /// The buffer and the number of bytes written into it.
    closed spec fn view(&self) -> (Seq<u8>, nat) {
        (self.buf@, self.pos as nat)
    }
}

impl StrbufWriter {
    /// The written bytes lie in the buffer.
    pub open spec fn wf(&self) -> bool {
        self@.1 <= self@.0.len()
    }

    /// A writer that fills `buf` from its start.
    pub fn new(buf: Vec<u8>) -> (w: Self)
        ensures
            w.wf(),
            w@ == (buf@, 0nat),
    {
        StrbufWriter { buf, pos: 0 }
    }

    /// Appends the UTF-8 bytes of `s`, as many as fit; never fails.
    pub fn write_str(&mut self, s: &str)
        requires
            old(self).wf(),
        ensures
            final(self).wf(),
            final(self)@ == written(old(self)@, encode_utf8(s@)),
    {
        let bytes = s.as_bytes();
        let remain = self.buf.len() - self.pos;
        let to_copy = if remain < bytes.len() {
            remain
        } else {
            bytes.len()
        };
        let ghost b0 = self.buf@;
        assert(b0.len() <= usize::MAX);
        let mut k: usize = 0;
        while k < to_copy
            invariant
                k <= to_copy,
                to_copy <= remain,
                remain == b0.len() - self.pos,
                to_copy <= bytes@.len(),
                self.pos <= b0.len(),
                b0.len() <= usize::MAX,
                self.buf@.len() == b0.len(),
                forall|q: int|
                    0 <= q < b0.len() ==> #[trigger] self.buf@[q] == if self.pos <= q < self.pos + k {
                        bytes@[q - self.pos]
                    } else {
                        b0[q]
                    },
            decreases to_copy - k,
        {
            self.buf.set(self.pos + k, bytes[k]);
            k = k + 1;
        }
        assert(self.buf@ =~= buffered(b0, self.pos as int, bytes@));
        self.pos = self.pos + to_copy;
    }

    /// The text written so far, or nothing when its bytes are not UTF-8.
    pub fn as_str(&self) -> (t: &str)
        requires
            self.wf(),
        ensures
            t@ == writer_text(self@),
    {
        proof {
            reveal_strlit("");
        }
        match text_from_utf8(slice_subrange(self.buf.as_slice(), 0, self.pos)) {
            Some(t) => t,
            None => "",
        }
    }
}

} // verus!
