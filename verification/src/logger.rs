//! The serial port handle and the scrollback log of the text console.
use vstd::prelude::*;
use vstd::string::*;

verus! {

/// Lines the console scrollback keeps.
pub const TTY_LOG_CAPACITY: usize = 250;

/// A 16550 UART addressed by its base I/O port.
pub struct SerialPort {
    port_num: u16,
}

impl SerialPort {
    /// The base I/O port.
    pub closed spec fn port(&self) -> u16 {
        self.port_num
    }

    /// A handle on the UART at `port_num`.
    pub fn new(port_num: u16) -> (s: Self)
        ensures
            s.port() == port_num,
    {
        SerialPort { port_num }
    }

    /// The base I/O port.
    pub fn port_num(&self) -> (p: u16)
        ensures
            p == self.port(),
    {
        self.port_num
    }
}

/// White space as Unicode defines it (what `char::is_whitespace` tests).
pub open spec fn is_whitespace(c: char) -> bool {
    let u = c as u32;
    ||| 0x09 <= u <= 0x0D
    ||| u == 0x20
    ||| u == 0x85
    ||| u == 0xA0
    ||| u == 0x1680
    ||| 0x2000 <= u <= 0x200A
    ||| u == 0x2028
    ||| u == 0x2029
    ||| u == 0x202F
    ||| u == 0x205F
    ||| u == 0x3000
}

/// `c` is white space.
pub fn char_is_whitespace(c: char) -> (b: bool)
    ensures
        b == is_whitespace(c),
{
    let u = c as u32;
    (0x09 <= u && u <= 0x0D) || u == 0x20 || u == 0x85 || u == 0xA0 || u == 0x1680 || (0x2000 <= u
        && u <= 0x200A) || u == 0x2028 || u == 0x2029 || u == 0x202F || u == 0x205F || u == 0x3000
}

/// The `\n`-separated pieces of `p`, empty ones included.
pub open spec fn line_pieces(p: Seq<char>) -> Seq<Seq<char>>
    decreases p.len(),
{
    if p.len() == 0 {
        seq![Seq::empty()]
    } else {
        let s = line_pieces(p.drop_last());
        if p.last() == '\n' {
            s.push(Seq::empty())
        } else {
            s.update(s.len() - 1, s.last().push(p.last()))
        }
    }
}

/// `p` without its carriage returns.
pub open spec fn without_cr(p: Seq<char>) -> Seq<char>
    decreases p.len(),
{
    if p.len() == 0 {
        p
    } else if p.last() == '\r' {
        without_cr(p.drop_last())
    } else {
        without_cr(p.drop_last()).push(p.last())
    }
}

/// Every character of `p` is white space.
pub open spec fn is_blank(p: Seq<char>) -> bool {
    forall|i: int| 0 <= i < p.len() ==> is_whitespace(#[trigger] p[i])
}

/// The pieces, carriage returns removed, that are not blank.
pub open spec fn kept_lines(pieces: Seq<Seq<char>>) -> Seq<Seq<char>>
    decreases pieces.len(),
{
    if pieces.len() == 0 {
        Seq::empty()
    } else {
        let kept = kept_lines(pieces.drop_last());
        let line = without_cr(pieces.last());
        if is_blank(line) {
            kept
        } else {
            kept.push(line)
        }
    }
}

/// The scrollback after `msg` is appended: each non-blank line of `msg`
/// (carriage returns removed) is added, and only the last
/// `TTY_LOG_CAPACITY` lines are kept.
pub open spec fn tty_after(logs: Seq<Seq<char>>, msg: Seq<char>) -> Seq<Seq<char>> {
    let all = logs + kept_lines(line_pieces(msg));
    if all.len() > TTY_LOG_CAPACITY {
        all.subrange(all.len() - TTY_LOG_CAPACITY, all.len() as int)
    } else {
        all
    }
}

/// A line has at least one piece.
proof fn lemma_line_pieces_nonempty(p: Seq<char>)
    ensures
        line_pieces(p).len() >= 1,
    decreases p.len(),
{
    if p.len() > 0 {
        lemma_line_pieces_nonempty(p.drop_last());
    }
}

/// Adds the line being read to the scrollback unless it is blank.
fn flush_line(logs: &mut Vec<String>, line: String, blank: bool)
    requires
        blank == is_blank(line@),
    ensures
        final(logs).deep_view() == if blank {
            old(logs).deep_view()
        } else {
            old(logs).deep_view().push(line@)
        },
{
    if !blank {
        let ghost before = logs.deep_view();
        logs.push(line);
        assert(logs.deep_view() =~= before.push(line@));
    }
}

/// Appends the lines of `msg` to the console scrollback `logs`, keeping the
/// last `TTY_LOG_CAPACITY` lines; returns whether a line was added, that
/// is, whether the console must be redrawn.
pub fn append_log(logs: &mut Vec<String>, msg: &str) -> (appended: bool)
    ensures
        final(logs).deep_view() == tty_after(old(logs).deep_view(), msg@),
        appended == (kept_lines(line_pieces(msg@)).len() > 0),
{
    let ghost logs0 = logs.deep_view();
    let n = msg.unicode_len();
    proof {
        reveal_strlit("");
    }
    let mut line = String::from_str("");
    let mut blank = true;
    let mut appended = false;
    let mut i: usize = 0;
    assert(msg@.subrange(0, 0) =~= Seq::<char>::empty());
    while i < n
        invariant
            n == msg@.len(),
            i <= n,
            line_pieces(msg@.subrange(0, i as int)).len() >= 1,
            line@ == without_cr(line_pieces(msg@.subrange(0, i as int)).last()),
            blank == is_blank(line@),
            logs.deep_view() == logs0 + kept_lines(line_pieces(msg@.subrange(0, i as int)).drop_last()),
            appended == (kept_lines(line_pieces(msg@.subrange(0, i as int)).drop_last()).len() > 0),
        decreases n - i,
    {
        let ghost pieces = line_pieces(msg@.subrange(0, i as int));
        let c = msg.get_char(i);
        assert(msg@.subrange(0, i + 1).drop_last() =~= msg@.subrange(0, i as int));
        assert(pieces =~= pieces.drop_last().push(pieces.last()));
        if c == '\n' {
            let ghost kept0 = kept_lines(pieces.drop_last());
            let old_line = line;
            let was_blank = blank;
            flush_line(logs, old_line, was_blank);
            if !was_blank {
                appended = true;
            }
            proof {
                reveal_strlit("");
            }
            line = String::from_str("");
            blank = true;
            proof {
                assert(line_pieces(msg@.subrange(0, i + 1)).drop_last() =~= pieces);
                assert(logs.deep_view() =~= logs0 + kept_lines(pieces));
                assert(line@ =~= Seq::<char>::empty());
            }
        } else {
            let ghost last0 = pieces.last();
            proof {
                assert(line_pieces(msg@.subrange(0, i + 1)).drop_last() =~= pieces.drop_last());
                assert(line_pieces(msg@.subrange(0, i + 1)).last() =~= last0.push(c));
                assert(last0.push(c).drop_last() =~= last0);
            }
            if c != '\r' {
                let ghost before = line@;
                let piece = msg.substring_char(i, i + 1);
                line.append(piece);
                let ws = char_is_whitespace(c);
                blank = blank && ws;
                proof {
                    assert(piece@ =~= seq![c]);
                    assert(line@ =~= before.push(c));
                    assert forall|k: int| 0 <= k < line@.len() implies #[trigger] is_whitespace(line@[k]) == (
                    if k < before.len() {
                        is_whitespace(before[k])
                    } else {
                        ws
                    }) by {}
                    if blank {
                        assert forall|k: int| 0 <= k < line@.len() implies is_whitespace(#[trigger] line@[k]) by {
                            if k < before.len() {
                                assert(is_whitespace(before[k]));
                            }
                        }
                    } else if !ws {
                        assert(!is_whitespace(line@[before.len() as int]));
                    } else {
                        let k = choose|k: int| 0 <= k < before.len() && !is_whitespace(before[k]);
                        assert(!is_whitespace(line@[k]));
                    }
                }
            }
        }
        i = i + 1;
    }
    let ghost pieces = line_pieces(msg@.subrange(0, n as int));
    assert(msg@.subrange(0, n as int) =~= msg@);
    assert(pieces =~= pieces.drop_last().push(pieces.last()));
    let was_blank = blank;
    flush_line(logs, line, was_blank);
    if !was_blank {
        appended = true;
    }
    assert(logs.deep_view() =~= logs0 + kept_lines(pieces));
    let ghost all = logs.deep_view();
    while logs.len() > TTY_LOG_CAPACITY
        invariant
            logs@.len() <= all.len(),
            all.len() > TTY_LOG_CAPACITY ==> logs@.len() >= TTY_LOG_CAPACITY,
            all.len() <= TTY_LOG_CAPACITY ==> logs@.len() == all.len(),
            logs.deep_view() == all.subrange(all.len() - logs@.len(), all.len() as int),
        decreases logs@.len(),
    {
        let ghost before = logs.deep_view();
        logs.remove(0);
        assert(logs.deep_view() =~= before.drop_first());
        assert(before.drop_first() =~= all.subrange(all.len() - logs@.len(), all.len() as int));
    }
    proof {
        if all.len() <= TTY_LOG_CAPACITY {
            assert(all.subrange(0, all.len() as int) =~= all);
        }
    }
    appended
}

} // verus!
