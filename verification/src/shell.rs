//! Command-line text handling of the shells: splitting a command into
//! words, the `-n <count>` flag, the lines of a file, and the command and
//! argument of a dashboard shell line.
use vstd::prelude::*;
use vstd::string::*;
use crate::logger::{is_whitespace, line_pieces, char_is_whitespace};
use crate::vfs::VirtualFileSystem;
use crate::inode::InodeType;
use crate::vfs_edit::{join_path, join_path_text};
use crate::text::{dec, fmt_dec};

verus! {

/// Scanning state of the words of `s`: the words completed so far and the
/// word being read.
pub open spec fn word_state(s: Seq<char>) -> (Seq<Seq<char>>, Seq<char>)
    decreases s.len(),
{
    if s.len() == 0 {
        (Seq::empty(), Seq::empty())
    } else {
        let (done, cur) = word_state(s.drop_last());
        if is_whitespace(s.last()) {
            if cur.len() > 0 {
                (done.push(cur), Seq::empty())
            } else {
                (done, Seq::empty())
            }
        } else {
            (done, cur.push(s.last()))
        }
    }
}

/// The maximal runs of non-white-space characters of `s`, in order.
pub open spec fn words(s: Seq<char>) -> Seq<Seq<char>> {
    let (done, cur) = word_state(s);
    if cur.len() > 0 {
        done.push(cur)
    } else {
        done
    }
}

/// Splits `line` into its white-space separated words.
pub fn split_words(line: &str) -> (parts: Vec<String>)
    ensures
        parts.deep_view() == words(line@),
{
    let n = line.unicode_len();
    let mut parts: Vec<String> = Vec::new();
    let mut start: usize = 0;
    let mut i: usize = 0;
    while i < n
        invariant
            n == line@.len(),
            start <= i <= n,
            word_state(line@.subrange(0, i as int)) == (parts.deep_view(), line@.subrange(
                start as int,
                i as int,
            )),
        decreases n - i,
    {
        let c = line.get_char(i);
        assert(line@.subrange(0, i + 1).drop_last() =~= line@.subrange(0, i as int));
        if char_is_whitespace(c) {
            if start < i {
                let part = String::from_str(line.substring_char(start, i));
                let ghost before = parts.deep_view();
                parts.push(part);
                assert(parts.deep_view() =~= before.push(line@.subrange(start as int, i as int)));
            }
            start = i + 1;
            assert(line@.subrange(start as int, i + 1) =~= Seq::<char>::empty());
        } else {
            assert(line@.subrange(start as int, i + 1) =~= line@.subrange(start as int, i as int).push(c));
        }
        i = i + 1;
    }
    assert(line@.subrange(0, n as int) =~= line@);
    if start < n {
        let part = String::from_str(line.substring_char(start, n));
        let ghost before = parts.deep_view();
        parts.push(part);
        assert(parts.deep_view() =~= before.push(line@.subrange(start as int, n as int)));
    }
    parts
}

/// `c` is an ASCII decimal digit.
pub open spec fn is_digit(c: char) -> bool {
    48 <= (c as u32) <= 57
}

/// The number written by the decimal digits `s`.
pub open spec fn digits_value(s: Seq<char>) -> nat
    decreases s.len(),
{
    if s.len() == 0 {
        0
    } else {
        digits_value(s.drop_last()) * 10 + ((s.last() as u32) - 48) as nat
    }
}

/// `s` without a leading `+`.
pub open spec fn unsigned_digits(s: Seq<char>) -> Seq<char> {
    if s.len() > 0 && s[0] == '+' {
        s.drop_first()
    } else {
        s
    }
}

/// Every character of `s` is a decimal digit.
pub open spec fn all_digits(s: Seq<char>) -> bool {
    forall|i: int| 0 <= i < s.len() ==> is_digit(#[trigger] s[i])
}

/// What parsing `s` as a `usize` gives: an optional `+`, then one or more
/// decimal digits whose value fits.
pub open spec fn parse_usize_spec(s: Seq<char>) -> Option<usize> {
    let d = unsigned_digits(s);
    if d.len() > 0 && all_digits(d) && digits_value(d) <= usize::MAX {
        Some(digits_value(d) as usize)
    } else {
        None
    }
}

/// A longer run of digits is worth at least as much as its prefix.
proof fn lemma_digits_grow(s: Seq<char>, k: int)
    requires
        0 <= k <= s.len(),
        all_digits(s),
    ensures
        digits_value(s.subrange(0, k)) <= digits_value(s),
    decreases s.len() - k,
{
    if k < s.len() {
        lemma_digits_grow(s, k + 1);
        let p = s.subrange(0, k + 1);
        assert(p.drop_last() =~= s.subrange(0, k));
        assert(is_digit(p.last()) && p.last() == s[k]);
    } else {
        assert(s.subrange(0, k) =~= s);
    }
}

/// Parses `s` as a decimal `usize`.
pub fn parse_usize(s: &str) -> (r: Option<usize>)
    ensures
        r == parse_usize_spec(s@),
{
    let n = s.unicode_len();
    let start: usize = if n > 0 && s.get_char(0) == '+' {
        1
    } else {
        0
    };
    let ghost d = unsigned_digits(s@);
    assert(d =~= s@.subrange(start as int, n as int));
    if start == n {
        return None;
    }
    let mut value: usize = 0;
    let mut i: usize = start;
    assert(d.subrange(0, 0) =~= Seq::<char>::empty());
    while i < n
        invariant
            n == s@.len(),
            start <= i <= n,
            d == s@.subrange(start as int, n as int),
            d == unsigned_digits(s@),
            d.len() > 0,
            value == digits_value(d.subrange(0, i - start)),
            forall|k: int| 0 <= k < i - start ==> is_digit(#[trigger] d[k]),
        decreases n - i,
    {
        let c = s.get_char(i);
        let ghost p = d.subrange(0, i - start + 1);
        assert(p.drop_last() =~= d.subrange(0, i - start));
        assert(p.last() == c);
        let code = c as u32;
        if code < 48 || code > 57 {
            proof {
                let k = i - start;
                assert(d[k] == c);
                assert(!is_digit(d[k]));
                assert(!all_digits(d));
            }
            return None;
        }
        let digit = (code - 48) as usize;
        let next = value.checked_mul(10);
        let next = match next {
            Some(v) => v.checked_add(digit),
            None => None,
        };
        match next {
            Some(v) => {
                value = v;
            },
            None => {
                proof {
                    assert(digits_value(p) == value * 10 + digit);
                    assert(digits_value(p) > usize::MAX);
                    if all_digits(d) {
                        lemma_digits_grow(d, i - start + 1);
                    }
                }
                return None;
            },
        }
        i = i + 1;
    }
    assert(d.subrange(0, n - start) =~= d);
    Some(value)
}

/// What the optional `-n <count>` flag in front of `args` gives: the count
/// (`default` when the flag is absent or its count does not parse) and the
/// argument after it.
pub open spec fn n_flag_spec(args: Seq<Seq<char>>, default: usize) -> (usize, Option<Seq<char>>) {
    if args.len() >= 2 && args[0] == seq!['-', 'n'] {
        (
            match parse_usize_spec(args[1]) {
                Some(v) => v,
                None => default,
            },
            if args.len() > 2 {
                Some(args[2])
            } else {
                None
            },
        )
    } else {
        (default, if args.len() > 0 {
            Some(args[0])
        } else {
            None
        })
    }
}

/// Reads an optional `-n <count>` flag from the front of `args`.
pub fn parse_n_flag(args: &Vec<String>, default: usize) -> (r: (usize, Option<String>))
    ensures
        (r.0, match r.1 {
            Some(s) => Some(s@),
            None => None,
        }) == n_flag_spec(args.deep_view(), default),
{
    proof {
        reveal_strlit("-n");
    }
    let flag = String::from_str("-n");
    if args.len() >= 2 && args[0] == flag {
        proof {
            assert(args.deep_view()[0] == args@[0]@);
            assert(flag@ =~= seq!['-', 'n']);
        }
        let n = match parse_usize(args[1].as_str()) {
            Some(v) => v,
            None => default,
        };
        proof {
            assert(args.deep_view()[1] == args@[1]@);
        }
        let rest = if args.len() > 2 {
            proof {
                assert(args.deep_view()[2] == args@[2]@);
            }
            Some(args[2].clone())
        } else {
            None
        };
        (n, rest)
    } else {
        proof {
            if args.len() >= 2 {
                assert(args.deep_view()[0] == args@[0]@);
                assert(flag@ =~= seq!['-', 'n']);
            }
        }
        let first = if args.len() > 0 {
            proof {
                assert(args.deep_view()[0] == args@[0]@);
            }
            Some(args[0].clone())
        } else {
            None
        };
        (default, first)
    }
}

/// `l` without one trailing carriage return.
pub open spec fn strip_cr_end(l: Seq<char>) -> Seq<char> {
    if l.len() > 0 && l.last() == '\r' {
        l.drop_last()
    } else {
        l
    }
}

/// The lines of `t` as `str::lines` gives them: split at `\n`, a `\r`
/// before a `\n` dropped, and no line after a final `\n`.
pub open spec fn text_lines(t: Seq<char>) -> Seq<Seq<char>> {
    let p = line_pieces(t);
    let init = p.drop_last().map_values(|l: Seq<char>| strip_cr_end(l));
    if p.last().len() > 0 {
        init.push(p.last())
    } else {
        init
    }
}

/// The lines of `text`.
pub fn lines_of(text: &str) -> (lines: Vec<String>)
    ensures
        lines.deep_view() == text_lines(text@),
{
    let n = text.unicode_len();
    let mut lines: Vec<String> = Vec::new();
    let mut start: usize = 0;
    let mut i: usize = 0;
    assert(text@.subrange(0, 0) =~= Seq::<char>::empty());
    while i < n
        invariant
            n == text@.len(),
            start <= i <= n,
            line_pieces(text@.subrange(0, i as int)).len() >= 1,
            line_pieces(text@.subrange(0, i as int)).last() == text@.subrange(start as int, i as int),
            lines.deep_view() == line_pieces(text@.subrange(0, i as int)).drop_last().map_values(
                |l: Seq<char>| strip_cr_end(l),
            ),
        decreases n - i,
    {
        let ghost pieces = line_pieces(text@.subrange(0, i as int));
        let c = text.get_char(i);
        assert(text@.subrange(0, i + 1).drop_last() =~= text@.subrange(0, i as int));
        if c == '\n' {
            let end = if i > start && text.get_char(i - 1) == '\r' {
                i - 1
            } else {
                i
            };
            let line = String::from_str(text.substring_char(start, end));
            let ghost before = lines.deep_view();
            let ghost line_view = line@;
            proof {
                let cur = text@.subrange(start as int, i as int);
                if i > start {
                    assert(cur.last() == text@[i - 1]);
                }
                assert(line_view =~= strip_cr_end(cur));
            }
            lines.push(line);
            proof {
                let cur = text@.subrange(start as int, i as int);
                assert(lines.deep_view() =~= before.push(line_view));
                assert(line_pieces(text@.subrange(0, i + 1)).drop_last() =~= pieces);
                assert(pieces =~= pieces.drop_last().push(cur));
                assert(lines.deep_view() =~= pieces.map_values(|l: Seq<char>| strip_cr_end(l)));
            }
            start = i + 1;
            assert(text@.subrange(start as int, i + 1) =~= Seq::<char>::empty());
        } else {
            proof {
                assert(line_pieces(text@.subrange(0, i + 1)).drop_last() =~= pieces.drop_last());
                assert(text@.subrange(start as int, i + 1) =~= text@.subrange(start as int, i as int).push(c));
            }
        }
        i = i + 1;
    }
    assert(text@.subrange(0, n as int) =~= text@);
    if start < n {
        let line = String::from_str(text.substring_char(start, n));
        let ghost before = lines.deep_view();
        lines.push(line);
        assert(lines.deep_view() =~= before.push(text@.subrange(start as int, n as int)));
    }
    lines
}

/// The first `n` lines of `text` (all of them when it has fewer).
pub fn head_lines(text: &str, n: usize) -> (lines: Vec<String>)
    ensures
        lines.deep_view() == text_lines(text@).take(if n < text_lines(text@).len() {
            n as int
        } else {
            text_lines(text@).len() as int
        }),
{
    let all = lines_of(text);
    let mut out: Vec<String> = Vec::new();
    let mut k: usize = 0;
    while k < all.len() && k < n
        invariant
            k <= all@.len(),
            k <= n,
            all.deep_view() == text_lines(text@),
            out.deep_view() == all.deep_view().take(k as int),
        decreases all@.len() - k,
    {
        let ghost before = out.deep_view();
        let item = all[k].clone();
        assert(all.deep_view()[k as int] == all@[k as int]@);
        out.push(item);
        assert(out.deep_view() =~= before.push(all.deep_view()[k as int]));
        assert(out.deep_view() =~= all.deep_view().take(k + 1));
        k = k + 1;
    }
    out
}

/// The last `n` lines of `text` (all of them when it has fewer).
pub fn tail_lines(text: &str, n: usize) -> (lines: Vec<String>)
    ensures
        lines.deep_view() == text_lines(text@).skip(if text_lines(text@).len() > n {
            text_lines(text@).len() - n
        } else {
            0
        }),
{
    let all = lines_of(text);
    let start = if all.len() > n {
        all.len() - n
    } else {
        0
    };
    let mut out: Vec<String> = Vec::new();
    let mut k: usize = start;
    while k < all.len()
        invariant
            start <= k <= all@.len(),
            all.deep_view() == text_lines(text@),
            out.deep_view() == all.deep_view().subrange(start as int, k as int),
        decreases all@.len() - k,
    {
        let ghost before = out.deep_view();
        let item = all[k].clone();
        assert(all.deep_view()[k as int] == all@[k as int]@);
        out.push(item);
        assert(out.deep_view() =~= before.push(all.deep_view()[k as int]));
        assert(out.deep_view() =~= all.deep_view().subrange(start as int, k + 1));
        k = k + 1;
    }
    assert(all.deep_view().subrange(start as int, all@.len() as int) =~= all.deep_view().skip(start as int));
    out
}

/// Line and word counts of `text`.
pub fn text_counts(text: &str) -> (r: (usize, usize))
    ensures
        r.0 == text_lines(text@).len(),
        r.1 == words(text@).len(),
{
    let lines = lines_of(text);
    let ws = split_words(text);
    (lines.len(), ws.len())
}

/// `s` without its leading white space.
pub open spec fn trim_front(s: Seq<char>) -> Seq<char>
    decreases s.len(),
{
    if s.len() > 0 && is_whitespace(s[0]) {
        trim_front(s.drop_first())
    } else {
        s
    }
}

/// `s` without its trailing white space.
pub open spec fn trim_back(s: Seq<char>) -> Seq<char>
    decreases s.len(),
{
    if s.len() > 0 && is_whitespace(s.last()) {
        trim_back(s.drop_last())
    } else {
        s
    }
}

/// `s` without leading and trailing white space.
pub open spec fn trim(s: Seq<char>) -> Seq<char> {
    trim_back(trim_front(s))
}

/// Position of the first space of `s`.
pub open spec fn first_space(s: Seq<char>) -> Option<int>
    decreases s.len(),
{
    if s.len() == 0 {
        None
    } else if s[0] == ' ' {
        Some(0)
    } else {
        match first_space(s.drop_first()) {
            Some(i) => Some(i + 1),
            None => None,
        }
    }
}

/// A line typed at the dashboard shell.
pub enum ShellLine {
    /// Nothing but white space.
    Empty,
    /// `sudo` alone.
    SudoAlone,
    /// A command word and the rest of the line after the first space
    /// (empty when there is none); `sudo` tells whether `sudo ` preceded
    /// the command.
    Command {
        /// Whether the line began with `sudo `.
        sudo: bool,
        /// The command word.
        cmd: String,
        /// The argument text.
        arg: String,
    },
}

/// How a dashboard shell line reads: trimmed, a leading `sudo ` set
/// aside, then cut at its first space into command and argument.
pub open spec fn shell_line_spec(input: Seq<char>) -> (int, Seq<char>, Seq<char>) {
    let t = trim(input);
    if t.len() == 0 {
        (0, Seq::empty(), Seq::empty())
    } else if t == seq!['s', 'u', 'd', 'o'] {
        (1, Seq::empty(), Seq::empty())
    } else {
        let sudo = t.len() >= 5 && t.subrange(0, 5) == seq!['s', 'u', 'd', 'o', ' '];
        let rest = if sudo {
            t.subrange(5, t.len() as int)
        } else {
            t
        };
        let code = if sudo {
            3int
        } else {
            2int
        };
        match first_space(rest) {
            Some(i) => (code, rest.subrange(0, i), rest.subrange(i + 1, rest.len() as int)),
            None => (code, rest, Seq::empty()),
        }
    }
}

/// The view of a parsed line: 0 empty, 1 `sudo` alone, 2 a command, 3 a
/// command after `sudo `; then the command and the argument.
pub open spec fn shell_line_view(l: ShellLine) -> (int, Seq<char>, Seq<char>) {
    match l {
        ShellLine::Empty => (0, Seq::empty(), Seq::empty()),
        ShellLine::SudoAlone => (1, Seq::empty(), Seq::empty()),
        ShellLine::Command { sudo, cmd, arg } => (if sudo {
            3int
        } else {
            2int
        }, cmd@, arg@),
    }
}

/// Trims `s` and returns the bounds of what is left.
fn trim_bounds(s: &str) -> (r: (usize, usize))
    ensures
        r.0 <= r.1 <= s@.len(),
        s@.subrange(r.0 as int, r.1 as int) == trim(s@),
{
    let n = s.unicode_len();
    let mut a: usize = 0;
    assert(s@.subrange(0, n as int) =~= s@);
    while a < n && char_is_whitespace(s.get_char(a))
        invariant
            a <= n,
            n == s@.len(),
            trim_front(s@) == trim_front(s@.subrange(a as int, n as int)),
        decreases n - a,
    {
        assert(s@.subrange(a as int, n as int).drop_first() =~= s@.subrange(a + 1, n as int));
        a = a + 1;
    }
    let ghost f = s@.subrange(a as int, n as int);
    assert(trim_front(f) == f);
    let mut b: usize = n;
    assert(f.subrange(0, (n - a) as int) =~= f);
    while b > a && char_is_whitespace(s.get_char(b - 1))
        invariant
            a <= b <= n,
            n == s@.len(),
            f == s@.subrange(a as int, n as int),
            trim_back(f) == trim_back(s@.subrange(a as int, b as int)),
        decreases b,
    {
        assert(s@.subrange(a as int, b as int).drop_last() =~= s@.subrange(a as int, b - 1));
        b = b - 1;
    }
    (a, b)
}

/// Parses a line typed at the dashboard shell.
pub fn parse_shell_line(input: &str) -> (l: ShellLine)
    ensures
        shell_line_view(l) == shell_line_spec(input@),
{
    let (a, b) = trim_bounds(input);
    let t = input.substring_char(a, b);
    let n = t.unicode_len();
    if n == 0 {
        return ShellLine::Empty;
    }
    let is_sudo_word = n == 4 && t.get_char(0) == 's' && t.get_char(1) == 'u' && t.get_char(2) == 'd'
        && t.get_char(3) == 'o';
    proof {
        if n == 4 {
            if is_sudo_word {
                assert(t@ =~= seq!['s', 'u', 'd', 'o']);
            } else {
                assert(t@ != seq!['s', 'u', 'd', 'o']) by {
                    if t@ == seq!['s', 'u', 'd', 'o'] {
                        assert(t@[0] == 's' && t@[1] == 'u' && t@[2] == 'd' && t@[3] == 'o');
                    }
                }
            }
        } else {
            assert(t@ != seq!['s', 'u', 'd', 'o']) by {
                if t@ == seq!['s', 'u', 'd', 'o'] {
                    assert(t@.len() == 4);
                }
            }
        }
    }
    if is_sudo_word {
        return ShellLine::SudoAlone;
    }
    let sudo = n >= 5 && t.get_char(0) == 's' && t.get_char(1) == 'u' && t.get_char(2) == 'd' && t.get_char(3)
        == 'o' && t.get_char(4) == ' ';
    proof {
        if n >= 5 {
            let p = t@.subrange(0, 5);
            if sudo {
                assert(p =~= seq!['s', 'u', 'd', 'o', ' ']);
            } else {
                assert(p != seq!['s', 'u', 'd', 'o', ' ']) by {
                    if p == seq!['s', 'u', 'd', 'o', ' '] {
                        assert(p[0] == t@[0] && p[1] == t@[1] && p[2] == t@[2] && p[3] == t@[3] && p[4] == t@[4]);
                    }
                }
            }
        }
    }
    let start: usize = if sudo {
        5
    } else {
        0
    };
    let rest = t.substring_char(start, n);
    assert(!sudo ==> rest@ =~= t@);
    let m = rest.unicode_len();
    let mut i: usize = 0;
    while i < m && rest.get_char(i) != ' '
        invariant
            i <= m,
            m == rest@.len(),
            forall|k: int| 0 <= k < i ==> rest@[k] != ' ',
        decreases m - i,
    {
        i = i + 1;
    }
    proof {
        lemma_first_space(rest@, i as int);
    }
    if i < m {
        ShellLine::Command {
            sudo,
            cmd: String::from_str(rest.substring_char(0, i)),
            arg: String::from_str(rest.substring_char(i + 1, m)),
        }
    } else {
        proof {
            reveal_strlit("");
        }
        assert(rest@.subrange(0, m as int) =~= rest@);
        ShellLine::Command { sudo, cmd: String::from_str(rest.substring_char(0, m)), arg: String::from_str("") }
    }
}

/// The first space is at `i` when no earlier character is one and `s[i]`
/// is (or `i` is the end of `s`, and there is none).
proof fn lemma_first_space(s: Seq<char>, i: int)
    requires
        0 <= i <= s.len(),
        forall|k: int| 0 <= k < i ==> s[k] != ' ',
        i < s.len() ==> s[i] == ' ',
    ensures
        first_space(s) == if i < s.len() {
            Some(i)
        } else {
            None::<int>
        },
    decreases s.len(),
{
    if s.len() > 0 && i > 0 {
        assert forall|k: int| 0 <= k < i - 1 implies s.drop_first()[k] != ' ' by {
            assert(s.drop_first()[k] == s[k + 1]);
        }
        lemma_first_space(s.drop_first(), i - 1);
    }
}

/// Cuts `s` at its first space: the text before it and the text after it.
pub fn split_at_first_space(s: &str) -> (r: Option<(String, String)>)
    ensures
        match first_space(s@) {
            Some(i) => (r matches Some((a, b)) && a@ == s@.subrange(0, i) && b@ == s@.subrange(
                i + 1,
                s@.len() as int,
            )),
            None => r is None,
        },
{
    let m = s.unicode_len();
    let mut i: usize = 0;
    while i < m && s.get_char(i) != ' '
        invariant
            i <= m,
            m == s@.len(),
            forall|k: int| 0 <= k < i ==> s@[k] != ' ',
        decreases m - i,
    {
        i = i + 1;
    }
    proof {
        lemma_first_space(s@, i as int);
    }
    if i < m {
        Some((String::from_str(s.substring_char(0, i)), String::from_str(s.substring_char(i + 1, m))))
    } else {
        None
    }
}

/// The text of `s` after the prefix `p`, when `s` starts with it.
pub fn strip_prefix_text(s: &str, p: &str) -> (r: Option<String>)
    ensures
        (p@.len() <= s@.len() && s@.subrange(0, p@.len() as int) == p@) ==> (r matches Some(t) && t@
            == s@.subrange(p@.len() as int, s@.len() as int)),
        !(p@.len() <= s@.len() && s@.subrange(0, p@.len() as int) == p@) ==> r is None,
{
    let n = s.unicode_len();
    let k = p.unicode_len();
    if k > n {
        return None;
    }
    let mut i: usize = 0;
    while i < k
        invariant
            i <= k <= n,
            n == s@.len(),
            k == p@.len(),
            forall|j: int| 0 <= j < i ==> s@[j] == p@[j],
        decreases k - i,
    {
        if s.get_char(i) != p.get_char(i) {
            proof {
                if s@.subrange(0, k as int) == p@ {
                    assert(s@.subrange(0, k as int)[i as int] == s@[i as int]);
                }
            }
            return None;
        }
        i = i + 1;
    }
    assert(s@.subrange(0, k as int) =~= p@);
    Some(String::from_str(s.substring_char(k, n)))
}

/// `s` without leading and trailing white space.
pub fn trim_text(s: &str) -> (t: String)
    ensures
        t@ == trim(s@),
{
    let (a, b) = trim_bounds(s);
    String::from_str(s.substring_char(a, b))
}

/// `p` occurs in `s`.
pub open spec fn contains_seq(s: Seq<char>, p: Seq<char>) -> bool {
    exists|i: int| 0 <= i && i + p.len() <= s.len() && #[trigger] s.subrange(i, i + p.len()) == p
}

/// Whether `p` occurs in `s`.
pub fn contains_text(s: &str, p: &str) -> (b: bool)
    ensures
        b == contains_seq(s@, p@),
{
    let n = s.unicode_len();
    let k = p.unicode_len();
    if k > n {
        proof {
            assert forall|i: int| 0 <= i && i + p@.len() <= s@.len() implies #[trigger] s@.subrange(i, i + p@.len())
                != p@ by {}
        }
        return false;
    }
    let mut i: usize = 0;
    while i <= n - k
        invariant
            k <= n,
            n == s@.len(),
            k == p@.len(),
            i <= n - k + 1,
            forall|j: int| 0 <= j < i ==> #[trigger] s@.subrange(j, j + k) != p@,
        decreases n - k + 1 - i,
    {
        let mut j: usize = 0;
        while j < k && s.get_char(i + j) == p.get_char(j)
            invariant
                j <= k,
                i + k <= n,
                n == s@.len(),
                k == p@.len(),
                forall|m: int| 0 <= m < j ==> s@[i + m] == p@[m],
            decreases k - j,
        {
            j = j + 1;
        }
        if j == k {
            assert(s@.subrange(i as int, i + k) =~= p@);
            return true;
        }
        assert(s@.subrange(i as int, i + k) != p@) by {
            assert(s@.subrange(i as int, i + k)[j as int] == s@[i + j]);
        }
        i = i + 1;
    }
    false
}

/// The text of each string.
pub open spec fn texts(v: Seq<String>) -> Seq<Seq<char>> {
    v.map_values(|s: String| s@)
}

/// Paths, depth first, of the nodes under inode `i` (itself at path `p`)
/// whose non-empty name contains `query`, following directory entries at
/// most `d` levels down.
pub open spec fn found_paths(vfs: VirtualFileSystem, i: usize, p: Seq<char>, query: Seq<char>, d: nat) -> Seq<
    Seq<char>,
>
    decreases d, 0nat,
{
    if i >= vfs.inodes@.len() {
        Seq::empty()
    } else {
        let node = vfs.inodes@[i as int];
        let own = if node.name@.len() > 0 && contains_seq(node.name@, query) {
            seq![p]
        } else {
            Seq::empty()
        };
        match node.inode_type {
            InodeType::Directory { entries } => if d == 0 {
                own
            } else {
                own + found_in_entries(vfs, entries@, entries@.len(), p, query, (d - 1) as nat)
            },
            InodeType::File { .. } => own,
        }
    }
}

/// `found_paths` under each of the first `n` entries of the directory at
/// path `p`, in entry order.
pub open spec fn found_in_entries(
    vfs: VirtualFileSystem,
    entries: Seq<(String, usize)>,
    n: nat,
    p: Seq<char>,
    query: Seq<char>,
    d: nat,
) -> Seq<Seq<char>>
    decreases d, n,
{
    if n == 0 {
        Seq::empty()
    } else {
        found_in_entries(vfs, entries, (n - 1) as nat, p, query, d) + found_paths(
            vfs,
            entries[n - 1].1,
            join_path(p, entries[n - 1].0@),
            query,
            d,
        )
    }
}

/// Appends to `results` the paths of the nodes under `inode_idx` whose
/// name contains `query`, going at most `depth` levels down.
fn find_in_vfs_to(
    vfs: &VirtualFileSystem,
    inode_idx: usize,
    current_path: &str,
    query: &str,
    results: &mut Vec<String>,
    depth: usize,
)
    ensures
        texts(final(results)@) == texts(old(results)@) + found_paths(
            *vfs,
            inode_idx,
            current_path@,
            query@,
            depth as nat,
        ),
    decreases depth,
{
    if inode_idx >= vfs.inodes.len() {
        assert(texts(results@) =~= texts(old(results)@) + Seq::<Seq<char>>::empty());
        return;
    }
    let inode = &vfs.inodes[inode_idx];
    if inode.name.unicode_len() > 0 && contains_text(inode.name.as_str(), query) {
        results.push(String::from_str(current_path));
    }
    let ghost own = if inode.name@.len() > 0 && contains_seq(inode.name@, query@) {
        seq![current_path@]
    } else {
        Seq::<Seq<char>>::empty()
    };
    assert(texts(results@) =~= texts(old(results)@) + own);
    match &inode.inode_type {
        InodeType::Directory { entries } => {
            if depth == 0 {
                return;
            }
            let mut k: usize = 0;
            while k < entries.len()
                invariant
                    k <= entries@.len(),
                    depth > 0,
                    vfs.inodes@[inode_idx as int].inode_type == (InodeType::Directory { entries: *entries }),
                    texts(results@) == texts(old(results)@) + own + found_in_entries(
                        *vfs,
                        entries@,
                        k as nat,
                        current_path@,
                        query@,
                        (depth - 1) as nat,
                    ),
                decreases entries@.len() - k,
            {
                let child = join_path_text(current_path, entries[k].0.as_str());
                let ghost before = texts(results@);
                find_in_vfs_to(vfs, entries[k].1, child.as_str(), query, results, depth - 1);
                proof {
                    assert(found_in_entries(*vfs, entries@, (k + 1) as nat, current_path@, query@, (depth - 1) as nat)
                        == found_in_entries(*vfs, entries@, k as nat, current_path@, query@, (depth - 1) as nat)
                        + found_paths(*vfs, entries@[k as int].1, child@, query@, (depth - 1) as nat));
                    assert(texts(results@) =~= texts(old(results)@) + own + found_in_entries(
                        *vfs,
                        entries@,
                        (k + 1) as nat,
                        current_path@,
                        query@,
                        (depth - 1) as nat,
                    ));
                }
                k = k + 1;
            }
        },
        InodeType::File { .. } => {},
    }
}

/// Appends to `results` the paths of the nodes under `inode_idx` (itself at
/// `current_path`) whose non-empty name contains `query`, depth first. A
/// path down the tree visits each inode at most once, so following entries
/// as many levels down as there are inodes reaches every node of a tree.
pub fn find_in_vfs(
    vfs: &VirtualFileSystem,
    inode_idx: usize,
    current_path: &str,
    query: &str,
    results: &mut Vec<String>,
)
    ensures
        texts(final(results)@) == texts(old(results)@) + found_paths(
            *vfs,
            inode_idx,
            current_path@,
            query@,
            vfs.inodes@.len(),
        ),
{
    find_in_vfs_to(vfs, inode_idx, current_path, query, results, vfs.inodes.len());
}

/// `n` spaces.
pub open spec fn spaces(n: int) -> Seq<char> {
    Seq::new(if n > 0 {
        n as nat
    } else {
        0
    }, |i: int| ' ')
}

/// `s` padded with spaces to at least `n` characters.
pub open spec fn pad_right(s: Seq<char>, n: int) -> Seq<char> {
    s + spaces(n - s.len())
}

/// The line of the tree for a directory: the root as a coloured `/`, any
/// other directory indented two spaces per level, with a branch mark below
/// the top, and its name followed by `/`, coloured.
pub open spec fn dir_line(is_root: bool, indent: int, name: Seq<char>) -> Seq<char> {
    if is_root {
        "\u{1b}[38;5;33m/\u{1b}[0m"@
    } else {
        spaces(2 * indent) + (if indent > 0 {
            "\u{251c}\u{2500}\u{2500} "@
        } else {
            Seq::empty()
        }) + "\u{1b}[38;5;33m"@ + name + "/\u{1b}[0m"@
    }
}

/// The line of the tree for a file: indented like a directory, its name
/// padded to sixteen characters, then its size in bytes, dimmed.
pub open spec fn file_line(indent: int, name: Seq<char>, size: nat) -> Seq<char> {
    spaces(2 * indent) + (if indent > 0 {
        "\u{251c}\u{2500}\u{2500} "@
    } else {
        Seq::empty()
    }) + pad_right(name, 16) + " \u{1b}[38;5;246m("@ + dec(size) + " bytes)\u{1b}[0m"@
}

/// The lines of the tree under inode `i` drawn at `indent`, depth first,
/// following directory entries at most `d` levels down.
pub open spec fn tree_lines(vfs: VirtualFileSystem, i: usize, indent: int, d: nat) -> Seq<Seq<char>>
    decreases d, 0nat,
{
    if i >= vfs.inodes@.len() {
        Seq::empty()
    } else {
        let node = vfs.inodes@[i as int];
        match node.inode_type {
            InodeType::Directory { entries } => seq![dir_line(i == 0, indent, node.name@)] + if d == 0 {
                Seq::empty()
            } else {
                tree_lines_of(vfs, entries@, entries@.len(), indent + 1, (d - 1) as nat)
            },
            InodeType::File { size, .. } => seq![file_line(indent, node.name@, size as nat)],
        }
    }
}

/// `tree_lines` of the first `n` entries, in order.
pub open spec fn tree_lines_of(
    vfs: VirtualFileSystem,
    entries: Seq<(String, usize)>,
    n: nat,
    indent: int,
    d: nat,
) -> Seq<Seq<char>>
    decreases d, n,
{
    if n == 0 {
        Seq::empty()
    } else {
        tree_lines_of(vfs, entries, (n - 1) as nat, indent, d) + tree_lines(vfs, entries[n - 1].1, indent, d)
    }
}

/// A string of `n` spaces.
pub(crate) fn spaces_text(n: usize) -> (s: String)
    ensures
        s@ == spaces(n as int),
{
    proof {
        reveal_strlit("");
        reveal_strlit(" ");
    }
    let mut s = String::from_str("");
    let mut k: usize = 0;
    while k < n
        invariant
            k <= n,
            s@ == spaces(k as int),
        decreases n - k,
    {
        proof {
            reveal_strlit(" ");
        }
        s.append(" ");
        k = k + 1;
        assert(s@ =~= spaces(k as int));
    }
    s
}

/// The lines of the tree under `inode_idx`, going at most `depth` levels
/// down.
fn tree_lines_to(vfs: &VirtualFileSystem, inode_idx: usize, indent: usize, depth: usize, out: &mut Vec<String>)
    requires
        2 * (indent + depth) <= usize::MAX,
    ensures
        texts(final(out)@) == texts(old(out)@) + tree_lines(*vfs, inode_idx, indent as int, depth as nat),
    decreases depth,
{
    if inode_idx >= vfs.inodes.len() {
        assert(texts(out@) =~= texts(old(out)@) + Seq::<Seq<char>>::empty());
        return;
    }
    let inode = &vfs.inodes[inode_idx];
    let pad = spaces_text(2 * indent);
    proof {
        reveal_strlit("");
        reveal_strlit("\u{251c}\u{2500}\u{2500} ");
    }
    let branch = if indent > 0 {
        "\u{251c}\u{2500}\u{2500} "
    } else {
        ""
    };
    match &inode.inode_type {
        InodeType::Directory { entries } => {
            let line = if inode_idx == 0 {
                String::from_str("\u{1b}[38;5;33m/\u{1b}[0m")
            } else {
                pad.concat(branch).concat("\u{1b}[38;5;33m").concat(inode.name.as_str()).concat("/\u{1b}[0m")
            };
            assert(line@ =~= dir_line(inode_idx == 0, indent as int, inode.name@));
            out.push(line);
            assert(texts(out@) =~= texts(old(out)@) + seq![dir_line(inode_idx == 0, indent as int, inode.name@)]);
            if depth == 0 {
                return;
            }
            let ghost start = texts(out@);
            let mut k: usize = 0;
            while k < entries.len()
                invariant
                    k <= entries@.len(),
                    depth > 0,
                    2 * (indent + depth) <= usize::MAX,
                    texts(out@) == start + tree_lines_of(*vfs, entries@, k as nat, indent + 1, (depth - 1) as nat),
                decreases entries@.len() - k,
            {
                tree_lines_to(vfs, entries[k].1, indent + 1, depth - 1, out);
                proof {
                    assert(texts(out@) =~= start + tree_lines_of(*vfs, entries@, (k + 1) as nat, indent + 1, (depth - 1) as nat));
                }
                k = k + 1;
            }
        },
        InodeType::File { size, .. } => {
            let name_len = inode.name.unicode_len();
            let fill = if name_len < 16 {
                16 - name_len
            } else {
                0
            };
            let line = pad.concat(branch).concat(inode.name.as_str()).concat(spaces_text(fill).as_str()).concat(
                " \u{1b}[38;5;246m(",
            ).concat(fmt_dec(*size).as_str()).concat(" bytes)\u{1b}[0m");
            assert(spaces(fill as int) =~= spaces(16 - inode.name@.len()));
            assert(line@ =~= file_line(indent as int, inode.name@, *size as nat));
            out.push(line);
            assert(texts(out@) =~= texts(old(out)@) + seq![file_line(indent as int, inode.name@, *size as nat)]);
        },
    }
}

/// The lines that draw the file tree under `inode_idx` at `indent`: a line
/// per node, depth first (see `tree_lines`). A path down the tree visits
/// each inode at most once, so following entries as many levels down as
/// there are inodes reaches every node of a tree.
pub fn vfs_tree_lines(vfs: &VirtualFileSystem, inode_idx: usize, indent: usize) -> (lines: Vec<String>)
    requires
        2 * (indent + vfs.inodes@.len()) <= usize::MAX,
    ensures
        texts(lines@) == tree_lines(*vfs, inode_idx, indent as int, vfs.inodes@.len()),
{
    let mut out: Vec<String> = Vec::new();
    assert(texts(out@) =~= Seq::<Seq<char>>::empty());
    tree_lines_to(vfs, inode_idx, indent, vfs.inodes.len(), &mut out);
    assert(texts(out@) =~= tree_lines(*vfs, inode_idx, indent as int, vfs.inodes@.len()));
    out
}

} // verus!
