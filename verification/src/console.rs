//! The desktop's text console: a grid of characters with a cursor that
//! scrolls, and the commands typed at its prompt, served by the kernel's
//! file system calls.
use vstd::prelude::*;
use vstd::string::*;
use vstd::utf8::{encode_utf8, decode_utf8, valid_utf8, is_char_boundary, encode_utf8_decode_utf8};
use crate::shell::{trim, trim_text};
use crate::text::text_from_utf8;
use crate::vfs::VirtualFileSystem;
use crate::allocator::MemoryAllocator;
use crate::syscall::{
    FdTable, SYS_ERR, FD_SLOTS, open_outcome, read_call_outcome, close_outcome, write_call_outcome,
    mkdir_call_outcome, make_directory, lemma_opened_slot,
};

verus! {

/// Rows of the console.
pub const TERM_MAX_ROWS: usize = 14;

/// Columns of the console.
pub const TERM_MAX_COLS: usize = 56;

/// A blank row.
pub open spec fn blank_row() -> Seq<char> {
    Seq::new(TERM_MAX_COLS as nat, |i: int| ' ')
}

/// The console as its rows of characters and the cursor's row and column.
pub type Screen = (Seq<Seq<char>>, int, int);

/// The cursor moves to the start of the next row; on the last row the
/// rows scroll up by one and a blank row comes in at the bottom.
pub open spec fn newline_spec(s: Screen) -> Screen {
    if s.1 < TERM_MAX_ROWS - 1 {
        (s.0, s.1 + 1, 0)
    } else {
        (s.0.drop_first().push(blank_row()), s.1, 0)
    }
}

/// A prompt, `>` then a space, starts at column `c` of `line`, before the
/// cursor at column `col`.
pub open spec fn prompt_at(line: Seq<char>, col: int, c: int) -> bool {
    c + 1 < col && line[c] == '>' && line[c + 1] == ' '
}

/// The column just after the last prompt that starts among the first `n`
/// columns of `line`.
pub open spec fn last_prompt(line: Seq<char>, col: int, n: int) -> Option<int>
    decreases n,
{
    if n <= 0 {
        None
    } else if prompt_at(line, col, n - 1) {
        Some(n + 1)
    } else {
        last_prompt(line, col, n - 1)
    }
}

/// The column after a prompt lies after its `>` and its space.
proof fn lemma_last_prompt_range(line: Seq<char>, col: int, n: int)
    ensures
        last_prompt(line, col, n) matches Some(q) ==> 2 <= q <= n + 1 && q <= col,
    decreases n,
{
    if n > 0 && !prompt_at(line, col, n - 1) {
        lemma_last_prompt_range(line, col, n - 1);
    }
}

/// What printing `c` does: a newline moves to the next row; a backspace
/// erases the character before the cursor unless that would reach into
/// the prompt (column 11 when the row shows none); any other character is
/// written at the cursor, which advances and wraps at the end of the row.
pub open spec fn print_char_spec(s: Screen, c: char) -> Screen {
    let (g, r, col) = s;
    if c == '\n' {
        newline_spec(s)
    } else if c == '\u{8}' {
        let pe = match last_prompt(g[r], col, col) {
            Some(p) => p,
            None => 11,
        };
        if col > pe {
            (g.update(r, g[r].update(col - 1, ' ')), r, col - 1)
        } else {
            s
        }
    } else {
        let g2 = if col < TERM_MAX_COLS {
            g.update(r, g[r].update(col, c))
        } else {
            g
        };
        let col2 = if col < TERM_MAX_COLS {
            col + 1
        } else {
            col
        };
        if col2 >= TERM_MAX_COLS {
            newline_spec((g2, r, col2))
        } else {
            (g2, r, col2)
        }
    }
}

/// Printing the characters of `text` one after the other.
pub open spec fn print_str_spec(s: Screen, text: Seq<char>) -> Screen
    decreases text.len(),
{
    if text.len() == 0 {
        s
    } else {
        print_char_spec(print_str_spec(s, text.drop_last()), text.last())
    }
}

/// A well-formed screen: all rows of full width, the cursor inside.
pub open spec fn screen_wf(s: Screen) -> bool {
    &&& s.0.len() == TERM_MAX_ROWS
    &&& forall|r: int| 0 <= r < TERM_MAX_ROWS ==> #[trigger] s.0[r].len() == TERM_MAX_COLS
    &&& 0 <= s.1 < TERM_MAX_ROWS
    &&& 0 <= s.2 < TERM_MAX_COLS
}

/// The blank screen with the cursor at the top left.
pub open spec fn blank_screen() -> Screen {
    (Seq::new(TERM_MAX_ROWS as nat, |r: int| blank_row()), 0, 0)
}

/// The console.
pub struct Terminal {
    /// The rows of characters.
    pub buffer: Vec<Vec<char>>,
    /// Cursor row.
    pub row: usize,
    /// Cursor column.
    pub col: usize,
}

impl View for Terminal {
    type V = Screen;

    open spec fn view(&self) -> Screen {
        (self.buffer@.map_values(|r: Vec<char>| r@), self.row as int, self.col as int)
    }
}

/// A blank row.
fn new_blank_row() -> (r: Vec<char>)
    ensures
        r@ == blank_row(),
{
    let mut r: Vec<char> = Vec::new();
    let mut k: usize = 0;
    while k < TERM_MAX_COLS
        invariant
            k <= TERM_MAX_COLS,
            r@ == Seq::new(k as nat, |i: int| ' '),
        decreases TERM_MAX_COLS - k,
    {
        r.push(' ');
        k = k + 1;
        assert(r@ =~= Seq::new(k as nat, |i: int| ' '));
    }
    r
}

impl Terminal {
    /// The screen is well formed.
    pub open spec fn wf(&self) -> bool {
        screen_wf(self@)
    }

    /// A blank console with the cursor at the top left.
    pub fn new() -> (t: Self)
        ensures
            t.wf(),
            t@ == blank_screen(),
    {
        let mut buffer: Vec<Vec<char>> = Vec::new();
        let mut k: usize = 0;
        while k < TERM_MAX_ROWS
            invariant
                k <= TERM_MAX_ROWS,
                buffer@.len() == k,
                forall|i: int| 0 <= i < k ==> #[trigger] buffer@[i]@ == blank_row(),
            decreases TERM_MAX_ROWS - k,
        {
            let row = new_blank_row();
            buffer.push(row);
            k = k + 1;
        }
        let t = Terminal { buffer, row: 0, col: 0 };
        assert(t@.0 =~= blank_screen().0);
        t
    }

    /// Moves the cursor to the start of the next row, scrolling on the last
    /// row; see `newline_spec`.
    pub fn term_newline(&mut self)
        requires
            old(self).wf(),
        ensures
            final(self).wf(),
            final(self)@ == newline_spec(old(self)@),
    {
        self.col = 0;
        if self.row < TERM_MAX_ROWS - 1 {
            self.row = self.row + 1;
        } else {
            let _ = self.buffer.remove(0);
            let blank = new_blank_row();
            self.buffer.push(blank);
            assert(self@.0 =~= old(self)@.0.drop_first().push(blank_row()));
        }
    }
}

impl Terminal {
    /// Writes `ch` at row `r`, column `c`.
    fn put(&mut self, r: usize, c: usize, ch: char)
        requires
            old(self).wf(),
            r < TERM_MAX_ROWS,
            c < TERM_MAX_COLS,
        ensures
            final(self).wf(),
            final(self)@ == (old(self)@.0.update(r as int, old(self)@.0[r as int].update(c as int, ch)), old(
                self,
            )@.1, old(self)@.2),
    {
        self.buffer[r].set(c, ch);
        assert(self@.0 =~= old(self)@.0.update(r as int, old(self)@.0[r as int].update(c as int, ch)));
    }

    /// The column after the last prompt left of the cursor on the cursor's
    /// row, if any.
    fn prompt_end(&self) -> (p: Option<usize>)
        requires
            self.wf(),
        ensures
            p == (match last_prompt(self@.0[self@.1], self@.2, self@.2) {
                Some(q) => Some(q as usize),
                None => None,
            }),
    {
        let line = &self.buffer[self.row];
        assert(line@ == self@.0[self@.1]);
        proof {
            lemma_last_prompt_range(line@, self.col as int, self.col as int);
        }
        let mut found: Option<usize> = None;
        let mut k: usize = 0;
        while k < self.col
            invariant
                self.wf(),
                line@ == self@.0[self@.1],
                line@.len() == TERM_MAX_COLS,
                k <= self.col,
                found == (match last_prompt(line@, self.col as int, k as int) {
                    Some(q) => Some(q as usize),
                    None => None,
                }),
            decreases self.col - k,
        {
            if k + 1 < self.col && line[k] == '>' && line[k + 1] == ' ' {
                found = Some(k + 2);
            }
            k = k + 1;
        }
        found
    }

    /// Prints `c`; see `print_char_spec`.
    pub fn term_print_char(&mut self, c: char)
        requires
            old(self).wf(),
        ensures
            final(self).wf(),
            final(self)@ == print_char_spec(old(self)@, c),
    {
        if c == '\n' {
            self.term_newline();
        } else if c == '\u{8}' {
            proof {
                lemma_last_prompt_range(self@.0[self@.1], self@.2, self@.2);
            }
            let prompt_end = match self.prompt_end() {
                Some(p) => p,
                None => 11,
            };
            if self.col > prompt_end {
                let r = self.row;
                let col = self.col - 1;
                self.put(r, col, ' ');
                self.col = col;
            }
        } else {
            if self.col < TERM_MAX_COLS {
                let r = self.row;
                let col = self.col;
                self.put(r, col, c);
                self.col = col + 1;
            }
            if self.col >= TERM_MAX_COLS {
                self.term_newline_from_end();
            }
        }
    }

    /// `term_newline` from a cursor just past the end of its row.
    fn term_newline_from_end(&mut self)
        requires
            old(self)@.0.len() == TERM_MAX_ROWS,
            forall|r: int| 0 <= r < TERM_MAX_ROWS ==> #[trigger] old(self)@.0[r].len() == TERM_MAX_COLS,
            old(self).row < TERM_MAX_ROWS,
        ensures
            final(self).wf(),
            final(self)@ == newline_spec(old(self)@),
    {
        self.col = 0;
        if self.row < TERM_MAX_ROWS - 1 {
            self.row = self.row + 1;
        } else {
            let _ = self.buffer.remove(0);
            let blank = new_blank_row();
            self.buffer.push(blank);
            assert(self@.0 =~= old(self)@.0.drop_first().push(blank_row()));
        }
    }

    /// Prints the characters of `s` in order.
    pub fn term_print_str(&mut self, s: &str)
        requires
            old(self).wf(),
        ensures
            final(self).wf(),
            final(self)@ == print_str_spec(old(self)@, s@),
    {
        let n = s.unicode_len();
        let mut i: usize = 0;
        assert(s@.subrange(0, 0) =~= Seq::<char>::empty());
        while i < n
            invariant
                self.wf(),
                i <= n,
                n == s@.len(),
                self@ == print_str_spec(old(self)@, s@.subrange(0, i as int)),
            decreases n - i,
        {
            let c = s.get_char(i);
            self.term_print_char(c);
            proof {
                let t = s@.subrange(0, i + 1);
                assert(t.drop_last() =~= s@.subrange(0, i as int));
            }
            i = i + 1;
        }
        assert(s@.subrange(0, n as int) =~= s@);
    }
}

/// `b` with an ASCII capital made small.
pub open spec fn lower_byte(b: u8) -> u8 {
    if 65 <= b <= 90 {
        (b + 32) as u8
    } else {
        b
    }
}

/// `a` and `b` are equal up to ASCII case.
pub open spec fn same_ignoring_case(a: Seq<u8>, b: Seq<u8>) -> bool {
    a.len() == b.len() && forall|i: int| 0 <= i < a.len() ==> #[trigger] lower_byte(a[i]) == lower_byte(b[i])
}

/// `cmd` is the word `w` up to ASCII case.
pub open spec fn is_word(cmd: Seq<char>, w: Seq<char>) -> bool {
    same_ignoring_case(encode_utf8(cmd), encode_utf8(w))
}

/// The first `k` bytes of `cmd` are `w` up to ASCII case.
pub open spec fn has_prefix(cmd: Seq<char>, k: int, w: Seq<char>) -> bool {
    let b = encode_utf8(cmd);
    b.len() >= k && same_ignoring_case(b.subrange(0, k), encode_utf8(w))
}

/// The text after the first `k` bytes of `cmd`.
pub open spec fn after_bytes(cmd: Seq<char>, k: int) -> Seq<char> {
    let b = encode_utf8(cmd);
    decode_utf8(b.subrange(k, b.len() as int))
}

/// `cmd` can be cut after its first `k` bytes, if it has that many.
pub open spec fn cuts_at(cmd: Seq<char>, k: int) -> bool {
    encode_utf8(cmd).len() >= k ==> is_char_boundary(encode_utf8(cmd), k)
}

/// Where the command typed on the cursor's row starts: after the last
/// prompt, else at column 11 or at the cursor when that is nearer.
pub open spec fn command_start(s: Screen) -> int {
    match last_prompt(s.0[s.1], s.2, s.2) {
        Some(p) => p,
        None => if s.2 > 11 {
            11
        } else {
            s.2
        },
    }
}

/// The bytes of the command typed: the low byte of each character from
/// its start to the cursor.
pub open spec fn command_bytes(s: Screen) -> Seq<u8> {
    let st = command_start(s);
    if s.2 > st {
        s.0[s.1].subrange(st, s.2).map_values(|c: char| (c as u32) as u8)
    } else {
        Seq::empty()
    }
}

/// The command: its bytes read as UTF-8 and trimmed; empty when they are
/// not UTF-8.
pub open spec fn command_text(s: Screen) -> Seq<char> {
    let b = command_bytes(s);
    if valid_utf8(b) {
        trim(decode_utf8(b))
    } else {
        Seq::empty()
    }
}

/// First position of `p` in `s`.
pub open spec fn first_match(s: Seq<char>, p: Seq<char>) -> Option<int> {
    if exists|i: int| 0 <= i && i + p.len() <= s.len() && #[trigger] s.subrange(i, i + p.len()) == p {
        Some(
            choose|i: int|
                0 <= i && i + p.len() <= s.len() && #[trigger] s.subrange(i, i + p.len()) == p && forall|j: int|
                    0 <= j < i ==> #[trigger] s.subrange(j, j + p.len()) != p,
        )
    } else {
        None
    }
}

/// `a` and `b` are equal up to ASCII case.
fn bytes_same_ignoring_case(a: &[u8], b: &[u8]) -> (r: bool)
    ensures
        r == same_ignoring_case(a@, b@),
{
    if a.len() != b.len() {
        return false;
    }
    let mut i: usize = 0;
    while i < a.len()
        invariant
            a@.len() == b@.len(),
            i <= a@.len(),
            forall|j: int| 0 <= j < i ==> #[trigger] lower_byte(a@[j]) == lower_byte(b@[j]),
        decreases a@.len() - i,
    {
        let x = if 65 <= a[i] && a[i] <= 90 {
            a[i] + 32
        } else {
            a[i]
        };
        let y = if 65 <= b[i] && b[i] <= 90 {
            b[i] + 32
        } else {
            b[i]
        };
        if x != y {
            assert(lower_byte(a@[i as int]) != lower_byte(b@[i as int]));
            return false;
        }
        i = i + 1;
    }
    true
}

/// `cmd` is the word `w` up to ASCII case.
fn word_matches(cmd: &str, w: &str) -> (r: bool)
    ensures
        r == is_word(cmd@, w@),
{
    bytes_same_ignoring_case(cmd.as_bytes(), w.as_bytes())
}

/// The first `k` bytes of `cmd` are `w` up to ASCII case.
fn prefix_matches(cmd: &str, k: usize, w: &str) -> (r: bool)
    requires
        cuts_at(cmd@, k as int),
    ensures
        r == has_prefix(cmd@, k as int, w@),
{
    let b = cmd.as_bytes();
    if b.len() < k {
        return false;
    }
    let (head, _) = cmd.split_at(k);
    bytes_same_ignoring_case(head.as_bytes(), w.as_bytes())
}

/// The text after the first `k` bytes of `cmd`.
fn text_after(cmd: &str, k: usize) -> (t: &str)
    requires
        encode_utf8(cmd@).len() >= k,
        is_char_boundary(encode_utf8(cmd@), k as int),
    ensures
        t@ == after_bytes(cmd@, k as int),
{
    let (_, tail) = cmd.split_at(k);
    proof {
        encode_utf8_decode_utf8(tail@);
    }
    tail
}

/// First position of `p` in `s`.
fn find_text(s: &str, p: &str) -> (r: Option<usize>)
    ensures
        match r {
            Some(i) => first_match(s@, p@) == Some(i as int) && i + p@.len() <= s@.len(),
            None => first_match(s@, p@) is None,
        },
{
    let n = s.unicode_len();
    let m = p.unicode_len();
    if m > n {
        proof {
            assert forall|j: int| 0 <= j && j + p@.len() <= s@.len() implies #[trigger] s@.subrange(j, j + p@.len())
                != p@ by {}
        }
        return None;
    }
    let mut i: usize = 0;
    while i <= n - m
        invariant
            n == s@.len(),
            m == p@.len(),
            m <= n,
            forall|j: int| 0 <= j < i ==> #[trigger] s@.subrange(j, j + m) != p@,
        decreases n - i,
    {
        let mut k: usize = 0;
        let mut same = true;
        while k < m
            invariant
                n == s@.len(),
                m == p@.len(),
                i + m <= n,
                k <= m,
                same == forall|q: int| 0 <= q < k ==> s@[i + q] == p@[q],
            decreases m - k,
        {
            if s.get_char(i + k) != p.get_char(k) {
                same = false;
            }
            k = k + 1;
        }
        if same {
            assert(s@.subrange(i as int, i + m) =~= p@);
            assert(first_match(s@, p@) == Some(i as int));
            return Some(i);
        }
        proof {
            if s@.subrange(i as int, i + m) == p@ {
                assert forall|q: int| 0 <= q < m implies s@[i + q] == p@[q] by {
                    assert(s@.subrange(i as int, i + m)[q] == s@[i + q]);
                }
            }
        }
        i = i + 1;
    }
    proof {
        assert forall|j: int| 0 <= j && j + p@.len() <= s@.len() implies #[trigger] s@.subrange(j, j + p@.len())
            != p@ by {}
    }
    None
}

impl Terminal {
    /// The bytes of the command typed on the cursor's row.
    fn command_line(&self) -> (b: Vec<u8>)
        requires
            self.wf(),
        ensures
            b@ == command_bytes(self@),
    {
        proof {
            lemma_last_prompt_range(self@.0[self@.1], self@.2, self@.2);
        }
        let start = match self.prompt_end() {
            Some(p) => p,
            None => if self.col > 11 {
                11
            } else {
                self.col
            },
        };
        let line = &self.buffer[self.row];
        assert(line@ == self@.0[self@.1]);
        let mut out: Vec<u8> = Vec::new();
        if self.col > start {
            let mut k: usize = start;
            while k < self.col
                invariant
                    start <= k <= self.col,
                    self.wf(),
                    line@ == self@.0[self@.1],
                    line@.len() == TERM_MAX_COLS,
                    out@ == line@.subrange(start as int, k as int).map_values(|c: char| (c as u32) as u8),
                decreases self.col - k,
            {
                let c = line[k];
                out.push((c as u32) as u8);
                k = k + 1;
                assert(out@ =~= line@.subrange(start as int, k as int).map_values(|c: char| (c as u32) as u8));
            }
        }
        assert(command_bytes(self@) =~= out@);
        out
    }
}

/// A descriptor table as its slots.
pub type Slots = Seq<Option<(Seq<char>, usize)>>;

/// An open that did not give a usable descriptor.
pub open spec fn open_failed(fd: u64) -> bool {
    fd == SYS_ERR || fd >= FD_SLOTS
}

/// Opening `p`, reading at most `len` bytes through the descriptor and
/// closing it: `fd` is what the open gave, `rd` what the read gave; nothing
/// is read or closed when the open failed.
#[verifier::opaque]
pub open spec fn open_read_close(
    v0: VirtualFileSystem,
    v1: VirtualFileSystem,
    a0: MemoryAllocator,
    a1: MemoryAllocator,
    t0: Slots,
    t1: Slots,
    p: Seq<char>,
    len: usize,
    fd: u64,
    rd: (u64, Vec<u8>),
) -> bool {
    exists|va: VirtualFileSystem, ta: Slots|
        #[trigger] open_outcome(v0, va, t0, ta, p, fd) && if open_failed(fd) {
            v1 == va && a1 == a0 && t1 == ta
        } else {
            exists|tb: Slots, rc: u64|
                #![trigger read_call_outcome(va, v1, a0, a1, ta, tb, fd as usize, len, None, rd), close_outcome(tb, t1, fd as usize, rc)]
                read_call_outcome(va, v1, a0, a1, ta, tb, fd as usize, len, None, rd) && close_outcome(
                    tb,
                    t1,
                    fd as usize,
                    rc,
                )
        }
}

/// The console after listing a directory: an error when it could not be
/// opened or read, else the listing when it is UTF-8.
#[verifier::opaque]
pub open spec fn listed(s: Screen, fd: u64, rd: (u64, Vec<u8>)) -> Screen {
    if open_failed(fd) {
        print_str_spec(s, "Error: could not open directory.\n"@)
    } else if rd.0 == SYS_ERR {
        print_str_spec(s, "Error: could not read directory.\n"@)
    } else if rd.0 > 0 && valid_utf8(rd.1@) {
        print_str_spec(s, decode_utf8(rd.1@))
    } else {
        s
    }
}

/// The console after showing a file: an error when it could not be opened
/// or read; its text, ended by a newline, when it is UTF-8; a note when it
/// is not.
#[verifier::opaque]
pub open spec fn shown_file(s: Screen, fd: u64, rd: (u64, Vec<u8>)) -> Screen {
    if open_failed(fd) {
        print_str_spec(s, "Error: could not open file.\n"@)
    } else if rd.0 == SYS_ERR {
        print_str_spec(s, "Error: could not read file.\n"@)
    } else if rd.0 > 0 {
        if valid_utf8(rd.1@) {
            let t = decode_utf8(rd.1@);
            let s2 = print_str_spec(s, t);
            if t.len() > 0 && t.last() == '\n' {
                s2
            } else {
                print_char_spec(s2, '\n')
            }
        } else {
            print_str_spec(s, "[Binary data]\n"@)
        }
    } else {
        s
    }
}

impl Terminal {
    /// Lists the directory `p` on the console.
    fn run_list(
        &mut self,
        p: &str,
        fds: &mut FdTable,
        vfs: &mut VirtualFileSystem,
        allocator: &mut MemoryAllocator,
    )
        requires
            old(self).wf(),
            old(fds).wf(),
            old(vfs).wf(),
            old(allocator).wf(),
        ensures
            final(self).wf(),
            final(fds).wf(),
            final(vfs).wf(),
            final(allocator).wf(),
            exists|fd: u64, rd: (u64, Vec<u8>)|
                open_read_close(
                    *old(vfs),
                    *final(vfs),
                    *old(allocator),
                    *final(allocator),
                    old(fds)@,
                    final(fds)@,
                    p@,
                    2048,
                    fd,
                    rd,
                ) && final(self)@ == #[trigger] listed(old(self)@, fd, rd),
    {
        proof {
            reveal(open_read_close);
            reveal(listed);
        }
        let fd = fds.open(vfs, p);
        let ghost va = *vfs;
        let ghost ta = fds@;
        if fd == SYS_ERR || fd >= 16 {
            self.term_print_str("Error: could not open directory.\n");
            let rd = (0u64, Vec::<u8>::new());
            assert(open_read_close(*old(vfs), *vfs, *old(allocator), *allocator, old(fds)@, fds@, p@, 2048, fd, rd));
            assert(self@ == listed(old(self)@, fd, rd));
            return;
        }
        let rd = fds.read(vfs, allocator, fd as usize, 2048, None);
        let ghost tb = fds@;
        if rd.0 == SYS_ERR {
            self.term_print_str("Error: could not read directory.\n");
        } else if rd.0 > 0 {
            match text_from_utf8(rd.1.as_slice()) {
                Some(t) => self.term_print_str(t),
                None => {},
            }
        }
        let rc = fds.close(fd as usize);
        assert(open_read_close(*old(vfs), *vfs, *old(allocator), *allocator, old(fds)@, fds@, p@, 2048, fd, rd));
        assert(self@ == listed(old(self)@, fd, rd));
    }
}

/// Creating the file `p` on the console's behalf: it is opened, and closed
/// again when the open worked; a failed open is reported.
#[verifier::opaque]
pub open spec fn touched(
    v0: VirtualFileSystem,
    v1: VirtualFileSystem,
    t0: Slots,
    t1: Slots,
    p: Seq<char>,
    s: Screen,
    out: Screen,
) -> bool {
    exists|ta: Slots, fd: u64|
        #[trigger] open_outcome(v0, v1, t0, ta, p, fd) && if open_failed(fd) {
            t1 == ta && out == print_str_spec(s, "Error: touch failed.\n"@)
        } else {
            out == s && exists|rc: u64| #[trigger] close_outcome(ta, t1, fd as usize, rc)
        }
}

/// Creating the directory `p` on the console's behalf, reporting how it
/// went.
#[verifier::opaque]
pub open spec fn made_dir(v0: VirtualFileSystem, v1: VirtualFileSystem, p: Seq<char>, s: Screen, out: Screen) -> bool {
    exists|r: u64|
        #[trigger] mkdir_call_outcome(v0, v1, p, r) && out == if r == SYS_ERR {
            print_str_spec(s, "Error: mkdir failed.\n"@)
        } else {
            print_str_spec(s, "Directory created successfully.\n"@)
        }
}

/// Writing `content` into the file `p` on the console's behalf: it is
/// opened, written from its start and closed; failures are reported.
#[verifier::opaque]
pub open spec fn echoed(
    v0: VirtualFileSystem,
    v1: VirtualFileSystem,
    a0: MemoryAllocator,
    a1: MemoryAllocator,
    t0: Slots,
    t1: Slots,
    content: Seq<char>,
    p: Seq<char>,
    s: Screen,
    out: Screen,
) -> bool {
    exists|va: VirtualFileSystem, ta: Slots, fd: u64|
        #[trigger] open_outcome(v0, va, t0, ta, p, fd) && if open_failed(fd) {
            v1 == va && a1 == a0 && t1 == ta && out == print_str_spec(
                s,
                "Error: could not open file for writing.\n"@,
            )
        } else {
            exists|tb: Slots, w: u64, rc: u64|
                #![trigger write_call_outcome(va, v1, a0, a1, ta, tb, fd as usize, encode_utf8(content), w), close_outcome(tb, t1, fd as usize, rc)]
                write_call_outcome(va, v1, a0, a1, ta, tb, fd as usize, encode_utf8(content), w) && close_outcome(
                    tb,
                    t1,
                    fd as usize,
                    rc,
                ) && out == if w == SYS_ERR {
                    print_str_spec(s, "Error: could not write to file.\n"@)
                } else {
                    s
                }
        }
}

impl Terminal {
    /// Shows the file `p` on the console.
    fn run_cat(
        &mut self,
        p: &str,
        fds: &mut FdTable,
        vfs: &mut VirtualFileSystem,
        allocator: &mut MemoryAllocator,
    )
        requires
            old(self).wf(),
            old(fds).wf(),
            old(vfs).wf(),
            old(allocator).wf(),
        ensures
            final(self).wf(),
            final(fds).wf(),
            final(vfs).wf(),
            final(allocator).wf(),
            exists|fd: u64, rd: (u64, Vec<u8>)|
                open_read_close(
                    *old(vfs),
                    *final(vfs),
                    *old(allocator),
                    *final(allocator),
                    old(fds)@,
                    final(fds)@,
                    p@,
                    4096,
                    fd,
                    rd,
                ) && final(self)@ == #[trigger] shown_file(old(self)@, fd, rd),
    {
        proof {
            reveal(open_read_close);
            reveal(shown_file);
        }
        let fd = fds.open(vfs, p);
        if fd == SYS_ERR || fd >= 16 {
            self.term_print_str("Error: could not open file.\n");
            let rd = (0u64, Vec::<u8>::new());
            assert(open_read_close(*old(vfs), *vfs, *old(allocator), *allocator, old(fds)@, fds@, p@, 4096, fd, rd));
            assert(self@ == shown_file(old(self)@, fd, rd));
            return;
        }
        let rd = fds.read(vfs, allocator, fd as usize, 4096, None);
        if rd.0 == SYS_ERR {
            self.term_print_str("Error: could not read file.\n");
        } else if rd.0 > 0 {
            match text_from_utf8(rd.1.as_slice()) {
                Some(t) => {
                    self.term_print_str(t);
                    let n = t.unicode_len();
                    if !(n > 0 && t.get_char(n - 1) == '\n') {
                        self.term_print_char('\n');
                    }
                },
                None => self.term_print_str("[Binary data]\n"),
            }
        }
        let rc = fds.close(fd as usize);
        assert(open_read_close(*old(vfs), *vfs, *old(allocator), *allocator, old(fds)@, fds@, p@, 4096, fd, rd));
        assert(self@ == shown_file(old(self)@, fd, rd));
    }

    /// Creates the file `p` on the console's behalf.
    fn run_touch(&mut self, p: &str, fds: &mut FdTable, vfs: &mut VirtualFileSystem)
        requires
            old(self).wf(),
            old(fds).wf(),
            old(vfs).wf(),
        ensures
            final(self).wf(),
            final(fds).wf(),
            final(vfs).wf(),
            touched(*old(vfs), *final(vfs), old(fds)@, final(fds)@, p@, old(self)@, final(self)@),
    {
        proof {
            reveal(touched);
        }
        let fd = fds.open(vfs, p);
        let ghost ta = fds@;
        if fd == SYS_ERR || fd >= 16 {
            self.term_print_str("Error: touch failed.\n");
        } else {
            let rc = fds.close(fd as usize);
            assert(close_outcome(ta, fds@, fd as usize, rc));
        }
        assert(touched(*old(vfs), *vfs, old(fds)@, fds@, p@, old(self)@, self@));
    }

    /// Creates the directory `p` on the console's behalf.
    fn run_mkdir(&mut self, p: &str, vfs: &mut VirtualFileSystem)
        requires
            old(self).wf(),
            old(vfs).wf(),
        ensures
            final(self).wf(),
            final(vfs).wf(),
            made_dir(*old(vfs), *final(vfs), p@, old(self)@, final(self)@),
    {
        proof {
            reveal(made_dir);
        }
        let r = make_directory(vfs, p);
        if r == SYS_ERR {
            self.term_print_str("Error: mkdir failed.\n");
        } else {
            self.term_print_str("Directory created successfully.\n");
        }
        assert(made_dir(*old(vfs), *vfs, p@, old(self)@, self@));
    }

    /// Writes `content` into the file `p` on the console's behalf.
    fn run_echo(
        &mut self,
        content: &str,
        p: &str,
        fds: &mut FdTable,
        vfs: &mut VirtualFileSystem,
        allocator: &mut MemoryAllocator,
    )
        requires
            old(self).wf(),
            old(fds).wf(),
            old(vfs).wf(),
            old(allocator).wf(),
        ensures
            final(self).wf(),
            final(fds).wf(),
            final(vfs).wf(),
            final(allocator).wf(),
            echoed(
                *old(vfs),
                *final(vfs),
                *old(allocator),
                *final(allocator),
                old(fds)@,
                final(fds)@,
                content@,
                p@,
                old(self)@,
                final(self)@,
            ),
    {
        proof {
            reveal(echoed);
        }
        let fd = fds.open(vfs, p);
        let ghost va = *vfs;
        let ghost ta = fds@;
        if fd == SYS_ERR || fd >= 16 {
            self.term_print_str("Error: could not open file for writing.\n");
            assert(echoed(
                *old(vfs),
                *vfs,
                *old(allocator),
                *allocator,
                old(fds)@,
                fds@,
                content@,
                p@,
                old(self)@,
                self@,
            ));
            return;
        }
        proof {
            lemma_opened_slot(*old(vfs), va, old(fds)@, ta, p@, fd);
        }
        let bytes = content.as_bytes();
        let blen = bytes.len();
        assert(fds@[fd as int] == Some((crate::syscall::user_path(p@), 0usize)));
        let w = fds.write(vfs, allocator, fd as usize, bytes);
        let ghost tb = fds@;
        if w == SYS_ERR {
            self.term_print_str("Error: could not write to file.\n");
        }
        let rc = fds.close(fd as usize);
        assert(write_call_outcome(
            va,
            *vfs,
            *old(allocator),
            *allocator,
            ta,
            tb,
            fd as usize,
            encode_utf8(content@),
            w,
        ));
        assert(echoed(
            *old(vfs),
            *vfs,
            *old(allocator),
            *allocator,
            old(fds)@,
            fds@,
            content@,
            p@,
            old(self)@,
            self@,
        ));
    }
}

/// The directory `ls` lists: the argument after `ls `, `/` when there is
/// none.
pub open spec fn list_target(cmd: Seq<char>) -> Seq<char> {
    let arg = if encode_utf8(cmd).len() >= 3 {
        trim(after_bytes(cmd, 3))
    } else {
        Seq::empty()
    };
    if arg.len() == 0 {
        seq!['/']
    } else {
        arg
    }
}

/// The command can be cut where its words are looked for: after 3 bytes
/// unless it is one of the words `help`, `about`, `clear` or `exit`; after
/// 6 bytes unless it is an `ls` command; after 4 bytes unless it is a
/// `mkdir` or `touch` command; after 5 bytes unless it is a `cat` command.
pub open spec fn command_cuts(cmd: Seq<char>) -> bool {
    let word = is_word(cmd, "help"@) || is_word(cmd, "about"@) || is_word(cmd, "clear"@) || is_word(cmd, "exit"@);
    let ls = is_word(cmd, "ls"@) || has_prefix(cmd, 3, "ls "@);
    let made = has_prefix(cmd, 6, "mkdir "@) || has_prefix(cmd, 6, "touch "@);
    !word ==> cuts_at(cmd, 3) && (!ls ==> cuts_at(cmd, 6) && (!made ==> cuts_at(cmd, 4) && (!has_prefix(
        cmd,
        4,
        "cat "@,
    ) ==> cuts_at(cmd, 5))))
}

/// What running the command `cmd` does to the console `s` (giving `out`),
/// the file system and the descriptors, and whether it asks to leave the
/// desktop: `help` and `about` print text; `clear` blanks the console;
/// `exit` says goodbye, closes descriptor 3 and asks to leave; `ls`,
/// `mkdir`, `touch`, `cat` and `echo TEXT > PATH` work on files (their
/// arguments trimmed, a usage line when one is missing); any other
/// non-empty command is not recognized.
pub open spec fn command_body(
    cmd: Seq<char>,
    s: Screen,
    v0: VirtualFileSystem,
    v1: VirtualFileSystem,
    a0: MemoryAllocator,
    a1: MemoryAllocator,
    t0: Slots,
    t1: Slots,
    out: Screen,
    exit: bool,
) -> bool {
    let unchanged = v1 == v0 && a1 == a0 && t1 == t0;
    if is_word(cmd, "help"@) {
        !exit && unchanged && out == print_str_spec(
            s,
            "Commands: help, about, clear, ls, mkdir, touch, cat, echo, exit\n"@,
        )
    } else if is_word(cmd, "about"@) {
        !exit && unchanged && out == print_str_spec(
            print_str_spec(s, "AE Rustanium Flight Controller OS v1.0\n"@),
            "Composed of Ring 0 Microkernel & Ring 3 DE.\n"@,
        )
    } else if is_word(cmd, "clear"@) {
        !exit && unchanged && out == blank_screen()
    } else if is_word(cmd, "exit"@) {
        &&& exit
        &&& v1 == v0 && a1 == a0
        &&& out == print_str_spec(s, "Returning control to microkernel...\n"@)
        &&& exists|rc: u64| #[trigger] close_outcome(t0, t1, 3, rc)
    } else {
        !exit && file_command_body(cmd, s, v0, v1, a0, a1, t0, t1, out)
    }
}

/// What `ls` does: lists `list_target(cmd)`, reading up to 2048 bytes.
#[verifier::opaque]
pub open spec fn ls_outcome(
    cmd: Seq<char>,
    s: Screen,
    v0: VirtualFileSystem,
    v1: VirtualFileSystem,
    a0: MemoryAllocator,
    a1: MemoryAllocator,
    t0: Slots,
    t1: Slots,
    out: Screen,
) -> bool {
    exists|fd: u64, rd: (u64, Vec<u8>)|
        open_read_close(v0, v1, a0, a1, t0, t1, list_target(cmd), 2048, fd, rd) && out == #[trigger] listed(
            s,
            fd,
            rd,
        )
}

/// What `mkdir PATH` (the path after the first `k` bytes) does.
#[verifier::opaque]
pub open spec fn mkdir_outcome(
    cmd: Seq<char>,
    s: Screen,
    v0: VirtualFileSystem,
    v1: VirtualFileSystem,
    a0: MemoryAllocator,
    a1: MemoryAllocator,
    t0: Slots,
    t1: Slots,
    out: Screen,
) -> bool {
    let p = trim(after_bytes(cmd, 6));
    a1 == a0 && t1 == t0 && if p.len() == 0 {
        v1 == v0 && out == print_str_spec(s, "Usage: mkdir <directory_path>\n"@)
    } else {
        made_dir(v0, v1, p, s, out)
    }
}

/// What `touch PATH` does.
#[verifier::opaque]
pub open spec fn touch_outcome(
    cmd: Seq<char>,
    s: Screen,
    v0: VirtualFileSystem,
    v1: VirtualFileSystem,
    a0: MemoryAllocator,
    a1: MemoryAllocator,
    t0: Slots,
    t1: Slots,
    out: Screen,
) -> bool {
    let p = trim(after_bytes(cmd, 6));
    a1 == a0 && if p.len() == 0 {
        v1 == v0 && t1 == t0 && out == print_str_spec(s, "Usage: touch <file_path>\n"@)
    } else {
        touched(v0, v1, t0, t1, p, s, out)
    }
}

/// What `cat PATH` does: shows the file, reading up to 4096 bytes.
#[verifier::opaque]
pub open spec fn cat_outcome(
    cmd: Seq<char>,
    s: Screen,
    v0: VirtualFileSystem,
    v1: VirtualFileSystem,
    a0: MemoryAllocator,
    a1: MemoryAllocator,
    t0: Slots,
    t1: Slots,
    out: Screen,
) -> bool {
    let p = trim(after_bytes(cmd, 4));
    if p.len() == 0 {
        v1 == v0 && a1 == a0 && t1 == t0 && out == print_str_spec(s, "Usage: cat <file_path>\n"@)
    } else {
        exists|fd: u64, rd: (u64, Vec<u8>)|
            open_read_close(v0, v1, a0, a1, t0, t1, p, 4096, fd, rd) && out == #[trigger] shown_file(s, fd, rd)
    }
}

/// What `echo TEXT > PATH` does: writes the trimmed text into the file.
#[verifier::opaque]
pub open spec fn echo_outcome(
    cmd: Seq<char>,
    s: Screen,
    v0: VirtualFileSystem,
    v1: VirtualFileSystem,
    a0: MemoryAllocator,
    a1: MemoryAllocator,
    t0: Slots,
    t1: Slots,
    out: Screen,
) -> bool {
    let args = after_bytes(cmd, 5);
    let unchanged = v1 == v0 && a1 == a0 && t1 == t0;
    match first_match(args, " > "@) {
        Some(i) => {
            let content = trim(args.subrange(0, i));
            let p = trim(args.subrange(i + 3, args.len() as int));
            if p.len() == 0 {
                unchanged && out == print_str_spec(s, "Usage: echo <text> > <file_path>\n"@)
            } else {
                echoed(v0, v1, a0, a1, t0, t1, content, p, s, out)
            }
        },
        None => unchanged && out == print_str_spec(s, "Usage: echo <text> > <file_path>\n"@),
    }
}

/// What a command other than `help`, `about`, `clear` and `exit` does; see
/// `command_body`.
pub open spec fn file_command_body(
    cmd: Seq<char>,
    s: Screen,
    v0: VirtualFileSystem,
    v1: VirtualFileSystem,
    a0: MemoryAllocator,
    a1: MemoryAllocator,
    t0: Slots,
    t1: Slots,
    out: Screen,
) -> bool {
    if is_word(cmd, "ls"@) || has_prefix(cmd, 3, "ls "@) {
        ls_outcome(cmd, s, v0, v1, a0, a1, t0, t1, out)
    } else if has_prefix(cmd, 6, "mkdir "@) {
        mkdir_outcome(cmd, s, v0, v1, a0, a1, t0, t1, out)
    } else if has_prefix(cmd, 6, "touch "@) {
        touch_outcome(cmd, s, v0, v1, a0, a1, t0, t1, out)
    } else if has_prefix(cmd, 4, "cat "@) {
        cat_outcome(cmd, s, v0, v1, a0, a1, t0, t1, out)
    } else if has_prefix(cmd, 5, "echo "@) {
        echo_outcome(cmd, s, v0, v1, a0, a1, t0, t1, out)
    } else if cmd.len() > 0 {
        v1 == v0 && a1 == a0 && t1 == t0 && out == print_str_spec(s, "Command not recognized. Type 'help'.\n"@)
    } else {
        v1 == v0 && a1 == a0 && t1 == t0 && out == s
    }
}

impl Terminal {
    /// Runs the command `cmd`; see `command_body`.
    fn run_command(
        &mut self,
        cmd: &str,
        fds: &mut FdTable,
        vfs: &mut VirtualFileSystem,
        allocator: &mut MemoryAllocator,
    ) -> (exit: bool)
        requires
            old(self).wf(),
            old(fds).wf(),
            old(vfs).wf(),
            old(allocator).wf(),
            command_cuts(cmd@),
        ensures
            final(self).wf(),
            final(fds).wf(),
            final(vfs).wf(),
            final(allocator).wf(),
            command_body(
                cmd@,
                old(self)@,
                *old(vfs),
                *final(vfs),
                *old(allocator),
                *final(allocator),
                old(fds)@,
                final(fds)@,
                final(self)@,
                exit,
            ),
    {
        if word_matches(cmd, "help") {
            self.term_print_str("Commands: help, about, clear, ls, mkdir, touch, cat, echo, exit\n");
            return false;
        }
        if word_matches(cmd, "about") {
            self.term_print_str("AE Rustanium Flight Controller OS v1.0\n");
            self.term_print_str("Composed of Ring 0 Microkernel & Ring 3 DE.\n");
            return false;
        }
        if word_matches(cmd, "clear") {
            *self = Terminal::new();
            return false;
        }
        if word_matches(cmd, "exit") {
            self.term_print_str("Returning control to microkernel...\n");
            let _ = fds.close(3);
            return true;
        }
        self.run_file_command(cmd, fds, vfs, allocator);
        false
    }

    /// Runs a command other than `help`, `about`, `clear` and `exit`; see
    /// `file_command_body`.
    fn run_file_command(
        &mut self,
        cmd: &str,
        fds: &mut FdTable,
        vfs: &mut VirtualFileSystem,
        allocator: &mut MemoryAllocator,
    )
        requires
            old(self).wf(),
            old(fds).wf(),
            old(vfs).wf(),
            old(allocator).wf(),
            command_cuts(cmd@),
            !is_word(cmd@, "help"@) && !is_word(cmd@, "about"@) && !is_word(cmd@, "clear"@) && !is_word(cmd@, "exit"@),
        ensures
            final(self).wf(),
            final(fds).wf(),
            final(vfs).wf(),
            final(allocator).wf(),
            file_command_body(
                cmd@,
                old(self)@,
                *old(vfs),
                *final(vfs),
                *old(allocator),
                *final(allocator),
                old(fds)@,
                final(fds)@,
                final(self)@,
            ),
    {
        if word_matches(cmd, "ls") || prefix_matches(cmd, 3, "ls ") {
            self.run_ls_command(cmd, fds, vfs, allocator);
        } else if prefix_matches(cmd, 6, "mkdir ") {
            self.run_mkdir_command(cmd, vfs);
        } else if prefix_matches(cmd, 6, "touch ") {
            self.run_touch_command(cmd, fds, vfs);
        } else if prefix_matches(cmd, 4, "cat ") {
            self.run_cat_command(cmd, fds, vfs, allocator);
        } else if prefix_matches(cmd, 5, "echo ") {
            self.run_echo_command(cmd, fds, vfs, allocator);
        } else if cmd.unicode_len() > 0 {
            self.term_print_str("Command not recognized. Type 'help'.\n");
        }
    }

    /// `ls [PATH]`.
    fn run_ls_command(
        &mut self,
        cmd: &str,
        fds: &mut FdTable,
        vfs: &mut VirtualFileSystem,
        allocator: &mut MemoryAllocator,
    )
        requires
            old(self).wf(),
            old(fds).wf(),
            old(vfs).wf(),
            old(allocator).wf(),
            cuts_at(cmd@, 3),
        ensures
            final(self).wf(),
            final(fds).wf(),
            final(vfs).wf(),
            final(allocator).wf(),
            ls_outcome(
                cmd@,
                old(self)@,
                *old(vfs),
                *final(vfs),
                *old(allocator),
                *final(allocator),
                old(fds)@,
                final(fds)@,
                final(self)@,
            ),
    {
        proof {
            reveal(ls_outcome);
            reveal_strlit("");
            reveal_strlit("/");
        }
        let arg = if cmd.as_bytes().len() >= 3 {
            trim_text(text_after(cmd, 3))
        } else {
            String::from_str("")
        };
        let target = if arg.unicode_len() == 0 {
            String::from_str("/")
        } else {
            arg
        };
        assert(target@ == list_target(cmd@));
        self.run_list(target.as_str(), fds, vfs, allocator);
    }

    /// `mkdir PATH`.
    fn run_mkdir_command(&mut self, cmd: &str, vfs: &mut VirtualFileSystem)
        requires
            old(self).wf(),
            old(vfs).wf(),
            has_prefix(cmd@, 6, "mkdir "@),
            cuts_at(cmd@, 6),
        ensures
            final(self).wf(),
            final(vfs).wf(),
            forall|a: MemoryAllocator, t: Slots|
                #[trigger] mkdir_outcome(cmd@, old(self)@, *old(vfs), *final(vfs), a, a, t, t, final(self)@),
    {
        proof {
            reveal(mkdir_outcome);
        }
        let p = trim_text(text_after(cmd, 6));
        if p.unicode_len() == 0 {
            self.term_print_str("Usage: mkdir <directory_path>\n");
        } else {
            self.run_mkdir(p.as_str(), vfs);
        }
    }

    /// `touch PATH`.
    fn run_touch_command(&mut self, cmd: &str, fds: &mut FdTable, vfs: &mut VirtualFileSystem)
        requires
            old(self).wf(),
            old(fds).wf(),
            old(vfs).wf(),
            has_prefix(cmd@, 6, "touch "@),
            cuts_at(cmd@, 6),
        ensures
            final(self).wf(),
            final(fds).wf(),
            final(vfs).wf(),
            forall|a: MemoryAllocator|
                #[trigger] touch_outcome(cmd@, old(self)@, *old(vfs), *final(vfs), a, a, old(fds)@, final(fds)@, final(self)@),
    {
        proof {
            reveal(touch_outcome);
        }
        let p = trim_text(text_after(cmd, 6));
        if p.unicode_len() == 0 {
            self.term_print_str("Usage: touch <file_path>\n");
        } else {
            self.run_touch(p.as_str(), fds, vfs);
        }
    }

    /// `cat PATH`.
    fn run_cat_command(
        &mut self,
        cmd: &str,
        fds: &mut FdTable,
        vfs: &mut VirtualFileSystem,
        allocator: &mut MemoryAllocator,
    )
        requires
            old(self).wf(),
            old(fds).wf(),
            old(vfs).wf(),
            old(allocator).wf(),
            has_prefix(cmd@, 4, "cat "@),
            cuts_at(cmd@, 4),
        ensures
            final(self).wf(),
            final(fds).wf(),
            final(vfs).wf(),
            final(allocator).wf(),
            cat_outcome(
                cmd@,
                old(self)@,
                *old(vfs),
                *final(vfs),
                *old(allocator),
                *final(allocator),
                old(fds)@,
                final(fds)@,
                final(self)@,
            ),
    {
        proof {
            reveal(cat_outcome);
        }
        let p = trim_text(text_after(cmd, 4));
        if p.unicode_len() == 0 {
            self.term_print_str("Usage: cat <file_path>\n");
        } else {
            self.run_cat(p.as_str(), fds, vfs, allocator);
        }
    }

    /// `echo TEXT > PATH`.
    #[verifier::rlimit(40)]
    fn run_echo_command(
        &mut self,
        cmd: &str,
        fds: &mut FdTable,
        vfs: &mut VirtualFileSystem,
        allocator: &mut MemoryAllocator,
    )
        requires
            old(self).wf(),
            old(fds).wf(),
            old(vfs).wf(),
            old(allocator).wf(),
            has_prefix(cmd@, 5, "echo "@),
            cuts_at(cmd@, 5),
        ensures
            final(self).wf(),
            final(fds).wf(),
            final(vfs).wf(),
            final(allocator).wf(),
            echo_outcome(
                cmd@,
                old(self)@,
                *old(vfs),
                *final(vfs),
                *old(allocator),
                *final(allocator),
                old(fds)@,
                final(fds)@,
                final(self)@,
            ),
    {
        proof {
            reveal(echo_outcome);
        }
        let args = text_after(cmd, 5);
        match find_text(args, " > ") {
            Some(i) => {
                proof {
                    reveal_strlit(" > ");
                }
                let n = args.unicode_len();
                let ghost a = args@;
                assert(first_match(a, " > "@) == Some(i as int));
                let content = trim_text(args.substring_char(0, i));
                let p = trim_text(args.substring_char(i + 3, n));
                assert(content@ == trim(a.subrange(0, i as int)));
                assert(p@ == trim(a.subrange(i + 3, a.len() as int)));
                if p.unicode_len() == 0 {
                    self.term_print_str("Usage: echo <text> > <file_path>\n");
                } else {
                    self.run_echo(content.as_str(), p.as_str(), fds, vfs, allocator);
                }
            },
            None => {
                self.term_print_str("Usage: echo <text> > <file_path>\n");
            },
        }
    }
}

/// What processing the command typed on the cursor's row does: the cursor
/// moves to the next row, the command (see `command_text`) runs (see
/// `command_body`) and, unless it was `clear`, a fresh prompt follows.
pub open spec fn process_outcome(
    s0: Screen,
    v0: VirtualFileSystem,
    v1: VirtualFileSystem,
    a0: MemoryAllocator,
    a1: MemoryAllocator,
    t0: Slots,
    t1: Slots,
    s1: Screen,
    exit: bool,
) -> bool {
    let cmd = command_text(s0);
    exists|out: Screen|
        #[trigger] command_body(cmd, newline_spec(s0), v0, v1, a0, a1, t0, t1, out, exit) && s1 == if is_word(
            cmd,
            "clear"@,
        ) {
            out
        } else {
            print_str_spec(out, "desktop:/> "@)
        }
}

/// The console after its start-up banner and first prompt.
pub open spec fn banner_printed(s: Screen) -> Screen {
    let s = print_str_spec(s, "AE Rustanium Flight DE (Ring 3 User Mode)\n"@);
    let s = print_str_spec(s, "======================================\n"@);
    let s = print_str_spec(s, "[OK] Framebuffer pages mapped successfully.\n"@);
    let s = print_str_spec(s, "[OK] Shared System Info page bound (vDSO).\n"@);
    let s = print_str_spec(s, "[OK] Event loop active. 16ms timeouts configured.\n"@);
    let s = print_str_spec(s, "Type in standard serial port COM1 to interact.\n\n"@);
    print_str_spec(s, "desktop:/> "@)
}

impl Terminal {
    /// Prints the start-up banner and the first prompt.
    pub fn term_init(&mut self)
        requires
            old(self).wf(),
        ensures
            final(self).wf(),
            final(self)@ == banner_printed(old(self)@),
    {
        self.term_print_str("AE Rustanium Flight DE (Ring 3 User Mode)\n");
        self.term_print_str("======================================\n");
        self.term_print_str("[OK] Framebuffer pages mapped successfully.\n");
        self.term_print_str("[OK] Shared System Info page bound (vDSO).\n");
        self.term_print_str("[OK] Event loop active. 16ms timeouts configured.\n");
        self.term_print_str("Type in standard serial port COM1 to interact.\n\n");
        self.term_print_str("desktop:/> ");
    }

    /// Runs the command typed on the cursor's row, with the system calls
    /// served by `fds`, `vfs` and `allocator`, and tells whether it asks to
    /// leave the desktop; see `process_outcome`. The command must be
    /// cuttable where its words are looked for (see `command_cuts`).
    pub fn term_process_command(
        &mut self,
        fds: &mut FdTable,
        vfs: &mut VirtualFileSystem,
        allocator: &mut MemoryAllocator,
    ) -> (exit: bool)
        requires
            old(self).wf(),
            old(fds).wf(),
            old(vfs).wf(),
            old(allocator).wf(),
            command_cuts(command_text(old(self)@)),
        ensures
            final(self).wf(),
            final(fds).wf(),
            final(vfs).wf(),
            final(allocator).wf(),
            process_outcome(
                old(self)@,
                *old(vfs),
                *final(vfs),
                *old(allocator),
                *final(allocator),
                old(fds)@,
                final(fds)@,
                final(self)@,
                exit,
            ),
    {
        let bytes = self.command_line();
        self.term_newline();
        let ghost s = self@;
        proof {
            reveal_strlit("");
        }
        let cmd = match text_from_utf8(bytes.as_slice()) {
            Some(t) => trim_text(t),
            None => String::from_str(""),
        };
        assert(cmd@ == command_text(old(self)@));
        let exit = self.run_command(cmd.as_str(), fds, vfs, allocator);
        let ghost out = self@;
        if !word_matches(cmd.as_str(), "clear") {
            self.term_print_str("desktop:/> ");
        }
        assert(command_body(
            command_text(old(self)@),
            newline_spec(old(self)@),
            *old(vfs),
            *vfs,
            *old(allocator),
            *allocator,
            old(fds)@,
            fds@,
            out,
            exit,
        ));
        exit
    }
}

} // verus!
