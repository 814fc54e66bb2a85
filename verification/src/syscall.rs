//! System calls on files: the descriptor table of a user program and the
//! data the kernel shares with it.
use vstd::prelude::*;
use vstd::string::*;
use vstd::utf8::encode_utf8;
use vstd::slice::{slice_subrange, slice_to_vec};
use crate::vfs::VirtualFileSystem;
use crate::inode::InodeType;
use crate::allocator::MemoryAllocator;
use crate::keyboard::KeyboardInput;
use crate::paths::{split_path, split_path_spec};

verus! {

/// Screen geometry handed to a user program.
#[derive(Debug, Clone, Copy)]
pub struct ScreenInfo {
    /// Physical address of the frame buffer.
    pub framebuffer_addr: u64,
    /// Width in pixels.
    pub width: u64,
    /// Height in pixels.
    pub height: u64,
    /// Pixels per scan line.
    pub stride: u64,
    /// Bytes per pixel.
    pub bytes_per_pixel: u64,
    /// Pixel format code.
    pub format: u32,
}

/// An input event handed to a user program.
#[derive(Debug, Clone, Copy)]
pub struct InputEvent {
    /// 0 none, 1 keyboard, 2 mouse.
    pub event_type: u32,
    /// Decoded key.
    pub keyboard_key: u32,
    /// Pointer column.
    pub mouse_x: i32,
    /// Pointer row.
    pub mouse_y: i32,
    /// Whether the left button is down.
    pub mouse_left_clicked: u32,
    /// Whether the right button is down.
    pub mouse_right_clicked: u32,
}

/// System figures published to user programs.
#[derive(Debug, Clone, Copy)]
pub struct SharedSystemInfo {
    /// Timer ticks since boot.
    pub system_ticks: u64,
    /// Free heap bytes.
    pub heap_free: u64,
    /// Used heap bytes.
    pub heap_used: u64,
    /// CPU usage in percent.
    pub cpu_usage: u64,
}

/// The page holding the published system figures, padded to 4096 bytes.
pub struct SharedInfoPage {
    /// The figures.
    pub info: SharedSystemInfo,
    /// Padding up to the page size.
    pub padding: [u8; 4064],
}

/// A file opened by a user program.
#[derive(Clone)]
pub struct OpenFile {
    /// Absolute path of the file.
    pub path: String,
    /// Read position in bytes.
    pub offset: usize,
}

/// Result code of a failed call.
pub const SYS_ERR: u64 = 0xFFFF_FFFF_FFFF_FFFF;

/// Result code of an open that found no free descriptor.
pub const SYS_ERR_NO_FD: u64 = 0xFFFF_FFFF_FFFF_FFFD;

/// Number of descriptors of a program.
pub const FD_SLOTS: usize = 16;

/// Lowest descriptor handed out for files; 0, 1 and 2 are the standard
/// streams.
pub const FIRST_FILE_FD: usize = 3;

/// An open file as its path and read/write position.
pub open spec fn slot_view(s: Option<OpenFile>) -> Option<(Seq<char>, usize)> {
    match s {
        Some(f) => Some((f.path@, f.offset)),
        None => None,
    }
}

/// The descriptors of a user program: slot `fd` holds the file open under
/// descriptor `fd`.
pub struct FdTable {
    /// One slot per descriptor.
    pub slots: Vec<Option<OpenFile>>,
}

impl View for FdTable {
    type V = Seq<Option<(Seq<char>, usize)>>;

    open spec fn view(&self) -> Seq<Option<(Seq<char>, usize)>> {
        self.slots@.map_values(|s: Option<OpenFile>| slot_view(s))
    }
}

/// `i` is the lowest free file descriptor of `t`.
pub open spec fn first_free_fd(t: Seq<Option<(Seq<char>, usize)>>, i: int) -> bool {
    &&& FIRST_FILE_FD <= i < FD_SLOTS
    &&& t[i] is None
    &&& forall|j: int| FIRST_FILE_FD <= j < i ==> #[trigger] t[j] is Some
}

/// Every file descriptor of `t` is in use.
pub open spec fn no_free_fd(t: Seq<Option<(Seq<char>, usize)>>) -> bool {
    forall|j: int| FIRST_FILE_FD <= j < FD_SLOTS ==> #[trigger] t[j] is Some
}

/// The path a program names, made absolute by a leading `/` where it has
/// none.
pub open spec fn user_path(raw: Seq<char>) -> Seq<char> {
    if raw.len() > 0 && raw[0] == '/' {
        raw
    } else {
        seq!['/'] + raw
    }
}

/// `p` without its leading slashes.
pub open spec fn trim_leading_slashes(p: Seq<char>) -> Seq<char>
    decreases p.len(),
{
    if p.len() > 0 && p[0] == '/' {
        trim_leading_slashes(p.subrange(1, p.len() as int))
    } else {
        p
    }
}

/// Before a node is created under `parent`, a directory named like the
/// parent without its leading slashes is created in the root when that
/// name is not empty; whether that succeeds does not matter.
pub open spec fn parent_prepared(v0: VirtualFileSystem, v1: VirtualFileSystem, parent: Seq<char>) -> bool {
    let pc = trim_leading_slashes(parent);
    if pc.len() == 0 {
        v1 == v0
    } else {
        exists|r: Result<usize, &'static str>| v0.create_outcome(v1, seq!['/'], pc, true, r)
    }
}

/// Making sure that the file at `p` exists: nothing happens when it does;
/// otherwise its parent is prepared and the file created. `ready` tells
/// whether the file exists afterwards by that creation or by the path
/// resolving.
pub open spec fn file_ready(v0: VirtualFileSystem, v1: VirtualFileSystem, p: Seq<char>, ready: bool) -> bool {
    if v0.resolve_spec(p) is Ok {
        v1 == v0 && ready
    } else {
        let (parent, name) = split_path_spec(p);
        exists|mid: VirtualFileSystem, rc: Result<usize, &'static str>|
            parent_prepared(v0, mid, parent) && #[trigger] mid.create_outcome(v1, parent, name, false, rc)
                && ready == (rc is Ok || v1.resolve_spec(p) is Ok)
    }
}

/// What opening `raw` does: an empty path fails; otherwise the file is made
/// ready and, if it is, it takes the lowest free descriptor at position 0,
/// whose number is returned.
pub open spec fn open_outcome(
    v0: VirtualFileSystem,
    v1: VirtualFileSystem,
    t0: Seq<Option<(Seq<char>, usize)>>,
    t1: Seq<Option<(Seq<char>, usize)>>,
    raw: Seq<char>,
    r: u64,
) -> bool {
    if raw.len() == 0 {
        r == SYS_ERR && v1 == v0 && t1 == t0
    } else {
        let p = user_path(raw);
        exists|ready: bool|
            #[trigger] file_ready(v0, v1, p, ready) && (!ready ==> r == SYS_ERR && t1 == t0) && (ready ==> (
            no_free_fd(t0) && r == SYS_ERR_NO_FD && t1 == t0) || (exists|i: int|
                #[trigger] first_free_fd(t0, i) && r == i && t1 == t0.update(i, Some((p, 0usize)))))
    }
}

/// What closing `fd` does: an open file descriptor is freed and 0 returned.
pub open spec fn close_outcome(
    t0: Seq<Option<(Seq<char>, usize)>>,
    t1: Seq<Option<(Seq<char>, usize)>>,
    fd: usize,
    r: u64,
) -> bool {
    if FIRST_FILE_FD <= fd < FD_SLOTS && t0[fd as int] is Some {
        r == 0 && t1 == t0.update(fd as int, None)
    } else {
        r == SYS_ERR && t1 == t0
    }
}

/// `raw` made absolute.
fn absolute_user_path(raw: &str) -> (p: String)
    ensures
        p@ == user_path(raw@),
{
    if raw.unicode_len() > 0 && raw.get_char(0) == '/' {
        String::from_str(raw)
    } else {
        proof {
            reveal_strlit("/");
        }
        String::from_str("/").concat(raw)
    }
}

/// `s` without its leading slashes.
fn strip_leading_slashes(s: &str) -> (t: &str)
    ensures
        t@ == trim_leading_slashes(s@),
{
    let n = s.unicode_len();
    let mut k: usize = 0;
    assert(s@.subrange(0, n as int) =~= s@);
    while k < n && s.get_char(k) == '/'
        invariant
            k <= n,
            n == s@.len(),
            trim_leading_slashes(s@) == trim_leading_slashes(s@.subrange(k as int, n as int)),
        decreases n - k,
    {
        assert(s@.subrange(k as int, n as int).subrange(1, n - k) =~= s@.subrange(k + 1, n as int));
        k = k + 1;
    }
    s.substring_char(k, n)
}

impl FdTable {
    /// Sixteen slots.
    pub open spec fn wf(&self) -> bool {
        self.slots@.len() == FD_SLOTS
    }

    /// A table with every descriptor free.
    pub fn new() -> (t: Self)
        ensures
            t.wf(),
            forall|i: int| 0 <= i < FD_SLOTS ==> #[trigger] t@[i] is None,
    {
        let mut slots: Vec<Option<OpenFile>> = Vec::new();
        let mut k: usize = 0;
        while k < FD_SLOTS
            invariant
                k <= FD_SLOTS,
                slots@.len() == k,
                forall|i: int| 0 <= i < k ==> #[trigger] slots@[i] is None,
            decreases FD_SLOTS - k,
        {
            slots.push(None);
            k = k + 1;
        }
        FdTable { slots }
    }

    /// Opens the file `raw_path` (made absolute), creating it when it does
    /// not resolve, and returns its descriptor; see `open_outcome`.
    pub fn open(&mut self, vfs: &mut VirtualFileSystem, raw_path: &str) -> (r: u64)
        requires
            old(self).wf(),
            old(vfs).wf(),
        ensures
            final(self).wf(),
            final(vfs).wf(),
            open_outcome(*old(vfs), *final(vfs), old(self)@, final(self)@, raw_path@, r),
    {
        if raw_path.unicode_len() == 0 {
            return SYS_ERR;
        }
        let path = absolute_user_path(raw_path);
        let ghost p = path@;
        let found = vfs.resolve_path(path.as_str()).is_ok();
        if !found {
            let (parent, name) = split_path(path.as_str());
            let pc = strip_leading_slashes(parent.as_str());
            let ghost v0 = *vfs;
            proof {
                reveal_strlit("/");
                assert("/"@ =~= seq!['/']);
            }
            if pc.unicode_len() > 0 {
                let rm = vfs.mkdir("/", pc);
                assert(v0.create_outcome(*vfs, seq!['/'], trim_leading_slashes(parent@), true, rm));
            }
            assert(parent_prepared(v0, *vfs, parent@));
            let ghost mid = *vfs;
            let rc = vfs.create_file(parent.as_str(), name.as_str());
            let ready = match rc {
                Ok(_) => true,
                Err(_) => vfs.resolve_path(path.as_str()).is_ok(),
            };
            proof {
                let (sp, sn) = split_path_spec(p);
                assert(sp == parent@ && sn == name@);
                assert(parent_prepared(v0, mid, sp) && mid.create_outcome(*vfs, sp, sn, false, rc) && ready
                    == (rc is Ok || vfs.resolve_spec(p) is Ok));
            }
            assert(file_ready(*old(vfs), *vfs, p, ready));
            if !ready {
                return SYS_ERR;
            }
        } else {
            assert(file_ready(*old(vfs), *vfs, p, true));
        }
        let ghost t0 = self@;
        let mut i: usize = FIRST_FILE_FD;
        while i < FD_SLOTS
            invariant
                self.wf(),
                self@ == t0,
                t0 == old(self)@,
                vfs.wf(),
                file_ready(*old(vfs), *vfs, p, true),
                p == path@,
                p == user_path(raw_path@),
                raw_path@.len() > 0,
                FIRST_FILE_FD <= i <= FD_SLOTS,
                forall|j: int| FIRST_FILE_FD <= j < i ==> #[trigger] t0[j] is Some,
            decreases FD_SLOTS - i,
        {
            let free = match &self.slots[i] {
                None => true,
                Some(_) => false,
            };
            if free {
                let ghost before = self.slots@;
                self.slots.set(i, Some(OpenFile { path, offset: 0 }));
                proof {
                    assert forall|j: int| 0 <= j < FD_SLOTS implies #[trigger] self@[j] == t0.update(
                        i as int,
                        Some((p, 0usize)),
                    )[j] by {
                        if j != i {
                            assert(self.slots@[j] == before[j]);
                        }
                    }
                }
                assert(self@ =~= t0.update(i as int, Some((p, 0usize))));
                assert(first_free_fd(t0, i as int));
                return i as u64;
            }
            i = i + 1;
        }
        SYS_ERR_NO_FD
    }

    /// Frees descriptor `fd`; see `close_outcome`.
    pub fn close(&mut self, fd: usize) -> (r: u64)
        requires
            old(self).wf(),
        ensures
            final(self).wf(),
            close_outcome(old(self)@, final(self)@, fd, r),
    {
        if fd >= FIRST_FILE_FD && fd < FD_SLOTS {
            let open = match &self.slots[fd] {
                Some(_) => true,
                None => false,
            };
            if open {
                self.slots.set(fd, None);
                assert(self@ =~= old(self)@.update(fd as int, None));
                0
            } else {
                SYS_ERR
            }
        } else {
            SYS_ERR
        }
    }
}

/// Process id that owns the frames of files written by user programs.
pub const USER_WRITER_PID: u32 = 1000;

/// The byte a key delivers on standard input: the character's low byte, a
/// newline for Enter, a backspace for Backspace; other keys deliver none.
pub open spec fn stdin_byte_spec(input: KeyboardInput) -> Option<u8> {
    match input {
        KeyboardInput::Char(c) => Some((c as u32) as u8),
        KeyboardInput::Enter => Some(10u8),
        KeyboardInput::Backspace => Some(8u8),
        _ => None,
    }
}

/// The byte `input` delivers on standard input; see `stdin_byte_spec`.
pub fn stdin_byte(input: KeyboardInput) -> (b: Option<u8>)
    ensures
        b == stdin_byte_spec(input),
{
    match input {
        KeyboardInput::Char(c) => Some((c as u32) as u8),
        KeyboardInput::Enter => Some(10u8),
        KeyboardInput::Backspace => Some(8u8),
        _ => None,
    }
}

/// The text a directory read returns: each entry's name on a line of its
/// own, with a `/` after the names of directories.
pub open spec fn listing_text(vfs: VirtualFileSystem, entries: Seq<(String, usize)>) -> Seq<char>
    decreases entries.len(),
{
    if entries.len() == 0 {
        Seq::empty()
    } else {
        let e = entries.last();
        listing_text(vfs, entries.drop_last()) + e.0@ + (if vfs.inodes@[e.1 as int].inode_type is Directory {
            seq!['/', '\n']
        } else {
            seq!['\n']
        })
    }
}

/// The bytes of `data` that a read of at most `len` bytes at position `off`
/// serves: none at or past the end.
pub open spec fn served(data: Seq<u8>, off: usize, len: usize) -> Seq<u8> {
    if off >= data.len() {
        Seq::empty()
    } else if data.len() - off <= len {
        data.subrange(off as int, data.len() as int)
    } else {
        data.subrange(off as int, off + len)
    }
}

/// A read through `fd` of the file `p` at position `off` returns what
/// `served` gives and moves the position past it.
pub open spec fn read_served(
    data: Seq<u8>,
    t0: Seq<Option<(Seq<char>, usize)>>,
    t1: Seq<Option<(Seq<char>, usize)>>,
    fd: usize,
    p: Seq<char>,
    off: usize,
    len: usize,
    r: (u64, Vec<u8>),
) -> bool {
    let out = served(data, off, len);
    &&& r.0 == out.len()
    &&& r.1@ == out
    &&& t1 == if out.len() == 0 {
        t0
    } else {
        t0.update(fd as int, Some((p, (off + out.len()) as usize)))
    }
}

/// A read through a file descriptor whose path does not name a directory:
/// the file is read (see `read_outcome`); a failed read returns the error
/// code.
pub open spec fn file_read_outcome(
    v0: VirtualFileSystem,
    v1: VirtualFileSystem,
    a0: MemoryAllocator,
    a1: MemoryAllocator,
    t0: Seq<Option<(Seq<char>, usize)>>,
    t1: Seq<Option<(Seq<char>, usize)>>,
    fd: usize,
    p: Seq<char>,
    off: usize,
    len: usize,
    r: (u64, Vec<u8>),
) -> bool {
    exists|rr: Result<Vec<u8>, &'static str>|
        #[trigger] v0.read_outcome(v1, a0, a1, p, rr) && match rr {
            Ok(d) => read_served(d@, t0, t1, fd, p, off, len, r),
            Err(_) => r.0 == SYS_ERR && r.1@.len() == 0 && t1 == t0,
        }
}

/// What a read of at most `len` bytes through `fd` returns: a count and the
/// bytes. Nothing is read for `len` 0; descriptor 0 serves the byte
/// `stdin` that standard input delivered, if any; the other standard
/// streams and descriptors out of range serve nothing; a free descriptor
/// fails. An open directory serves its listing (see `listing_text`) in
/// UTF-8, an open file its contents, from the descriptor's position on.
pub open spec fn read_call_outcome(
    v0: VirtualFileSystem,
    v1: VirtualFileSystem,
    a0: MemoryAllocator,
    a1: MemoryAllocator,
    t0: Seq<Option<(Seq<char>, usize)>>,
    t1: Seq<Option<(Seq<char>, usize)>>,
    fd: usize,
    len: usize,
    stdin: Option<u8>,
    r: (u64, Vec<u8>),
) -> bool {
    if len == 0 || fd < FIRST_FILE_FD || fd >= FD_SLOTS || t0[fd as int] is None {
        &&& v1 == v0 && a1 == a0 && t1 == t0
        &&& if len == 0 {
            r.0 == 0 && r.1@.len() == 0
        } else if fd == 0 {
            match stdin {
                Some(b) => r.0 == 1 && r.1@ == seq![b],
                None => r.0 == 0 && r.1@.len() == 0,
            }
        } else if fd < FIRST_FILE_FD || fd >= FD_SLOTS {
            r.0 == 0 && r.1@.len() == 0
        } else {
            r.0 == SYS_ERR && r.1@.len() == 0
        }
    } else {
        let (p, off) = t0[fd as int]->0;
        match v0.resolve_spec(p) {
            Ok(i) => match v0.inodes@[i as int].inode_type {
                InodeType::Directory { entries } => v1 == v0 && a1 == a0 && read_served(
                    encode_utf8(listing_text(v0, entries@)),
                    t0,
                    t1,
                    fd,
                    p,
                    off,
                    len,
                    r,
                ),
                InodeType::File { .. } => file_read_outcome(v0, v1, a0, a1, t0, t1, fd, p, off, len, r),
            },
            Err(_) => file_read_outcome(v0, v1, a0, a1, t0, t1, fd, p, off, len, r),
        }
    }
}

/// `old` with `data` written at position `off`, zero-filled up to `off`
/// where it was shorter.
pub open spec fn spliced(old: Seq<u8>, off: int, data: Seq<u8>) -> Seq<u8> {
    let n = if old.len() >= off + data.len() {
        old.len() as int
    } else {
        off + data.len()
    };
    Seq::new(
        n as nat,
        |k: int|
            if off <= k < off + data.len() {
                data[k - off]
            } else if k < old.len() {
                old[k]
            } else {
                0u8
            },
    )
}

/// The contents a read gave: nothing when it failed.
pub open spec fn read_contents(rr: Result<Vec<u8>, &'static str>) -> Seq<u8> {
    match rr {
        Ok(d) => d@,
        Err(_) => Seq::empty(),
    }
}

/// What writing `data` through `fd` does: nothing is written for empty
/// data (0); standard output and error take it whole (the caller prints
/// it); other standard or out-of-range descriptors and free ones fail.
/// Through an open descriptor the file is read, `data` spliced in at the
/// descriptor's position, and the result written back owned by
/// `USER_WRITER_PID`; on success the position moves past the data.
pub open spec fn write_call_outcome(
    v0: VirtualFileSystem,
    v1: VirtualFileSystem,
    a0: MemoryAllocator,
    a1: MemoryAllocator,
    t0: Seq<Option<(Seq<char>, usize)>>,
    t1: Seq<Option<(Seq<char>, usize)>>,
    fd: usize,
    data: Seq<u8>,
    r: u64,
) -> bool {
    if data.len() == 0 || fd < FIRST_FILE_FD || fd >= FD_SLOTS || t0[fd as int] is None {
        &&& v1 == v0 && a1 == a0 && t1 == t0
        &&& r == if data.len() == 0 {
            0
        } else if fd == 1 || fd == 2 {
            data.len() as u64
        } else {
            SYS_ERR
        }
    } else {
        let (p, off) = t0[fd as int]->0;
        exists|
            vm: VirtualFileSystem,
            am: MemoryAllocator,
            rr: Result<Vec<u8>, &'static str>,
            rw: Result<(), &'static str>,
        |
            vm.wf() && v0.read_outcome(vm, a0, am, p, rr) && #[trigger] vm.write_outcome(
                v1,
                am,
                a1,
                p,
                spliced(read_contents(rr), off as int, data),
                USER_WRITER_PID,
                rw,
            ) && (rw is Ok ==> r == data.len() && t1 == t0.update(
                fd as int,
                Some((p, (off + data.len()) as usize)),
            )) && (rw is Err ==> r == SYS_ERR && t1 == t0)
    }
}

/// What creating the directory `raw` (made absolute) does: an empty path
/// fails; otherwise the parent is prepared and the directory created,
/// giving 0 on success.
pub open spec fn mkdir_call_outcome(v0: VirtualFileSystem, v1: VirtualFileSystem, raw: Seq<char>, r: u64) -> bool {
    if raw.len() == 0 {
        r == SYS_ERR && v1 == v0
    } else {
        let (parent, name) = split_path_spec(user_path(raw));
        exists|mid: VirtualFileSystem, rc: Result<usize, &'static str>|
            parent_prepared(v0, mid, parent) && #[trigger] mid.create_outcome(v1, parent, name, true, rc) && r
                == if rc is Ok {
                0u64
            } else {
                SYS_ERR
            }
    }
}

/// `t0` with slot `fd` of a descriptor freshly opened on `p` closed again
/// is `t0`.
pub proof fn law_close_after_open(
    v0: VirtualFileSystem,
    v1: VirtualFileSystem,
    t0: Seq<Option<(Seq<char>, usize)>>,
    t1: Seq<Option<(Seq<char>, usize)>>,
    t2: Seq<Option<(Seq<char>, usize)>>,
    raw: Seq<char>,
    fd: u64,
    closed: u64,
)
    requires
        t0.len() == FD_SLOTS,
        open_outcome(v0, v1, t0, t1, raw, fd),
        fd < FD_SLOTS,
        close_outcome(t1, t2, fd as usize, closed),
    ensures
        closed == 0,
        t2 == t0,
{
    let p = user_path(raw);
    let ready = choose|ready: bool| #[trigger] file_ready(v0, v1, p, ready) && (!ready ==> fd == SYS_ERR && t1 == t0) && (ready ==> (
        no_free_fd(t0) && fd == SYS_ERR_NO_FD && t1 == t0) || (exists|i: int|
            #[trigger] first_free_fd(t0, i) && fd == i && t1 == t0.update(i, Some((p, 0usize)))));
    let i = choose|i: int| #[trigger] first_free_fd(t0, i) && fd == i && t1 == t0.update(i, Some((p, 0usize)));
    assert(t2 =~= t0);
}

/// A successful open leaves the file at position 0 under the descriptor it
/// returned.
pub proof fn lemma_opened_slot(
    v0: VirtualFileSystem,
    v1: VirtualFileSystem,
    t0: Seq<Option<(Seq<char>, usize)>>,
    t1: Seq<Option<(Seq<char>, usize)>>,
    raw: Seq<char>,
    fd: u64,
)
    requires
        open_outcome(v0, v1, t0, t1, raw, fd),
        fd != SYS_ERR,
        fd < FD_SLOTS,
    ensures
        FIRST_FILE_FD <= fd,
        t1 == t0.update(fd as int, Some((user_path(raw), 0usize))),
{
    let p = user_path(raw);
    let ready = choose|ready: bool| #[trigger] file_ready(v0, v1, p, ready) && (!ready ==> fd == SYS_ERR && t1 == t0) && (ready ==> (
        no_free_fd(t0) && fd == SYS_ERR_NO_FD && t1 == t0) || (exists|i: int|
            #[trigger] first_free_fd(t0, i) && fd == i && t1 == t0.update(i, Some((p, 0usize)))));
    let i = choose|i: int| #[trigger] first_free_fd(t0, i) && fd == i && t1 == t0.update(i, Some((p, 0usize)));
}

/// Bytes just written through one descriptor are read back through another
/// one open on the same file at the position the write started from.
pub proof fn law_fd_read_after_write(
    v0: VirtualFileSystem,
    v1: VirtualFileSystem,
    v2: VirtualFileSystem,
    a0: MemoryAllocator,
    a1: MemoryAllocator,
    a2: MemoryAllocator,
    t0: Seq<Option<(Seq<char>, usize)>>,
    t1: Seq<Option<(Seq<char>, usize)>>,
    t2: Seq<Option<(Seq<char>, usize)>>,
    fd: usize,
    other: usize,
    data: Seq<u8>,
    len: usize,
    written: u64,
    read: (u64, Vec<u8>),
)
    requires
        t0.len() == FD_SLOTS,
        FIRST_FILE_FD <= fd < FD_SLOTS,
        FIRST_FILE_FD <= other < FD_SLOTS,
        other != fd,
        t0[fd as int] is Some,
        t0[other as int] == t0[fd as int],
        0 < data.len() < SYS_ERR,
        write_call_outcome(v0, v1, a0, a1, t0, t1, fd, data, written),
        written == data.len(),
        0 < len <= data.len(),
        read_call_outcome(v1, v2, a1, a2, t1, t2, other, len, None, read),
    ensures
        read.0 == len,
        read.1@ == data.subrange(0, len as int),
{
    let (p, off) = t0[fd as int]->0;
    let (vm, am, rr, rw) = choose|
        vm: VirtualFileSystem,
        am: MemoryAllocator,
        rr: Result<Vec<u8>, &'static str>,
        rw: Result<(), &'static str>,
    |
        vm.wf() && v0.read_outcome(vm, a0, am, p, rr) && #[trigger] vm.write_outcome(
            v1,
            am,
            a1,
            p,
            spliced(read_contents(rr), off as int, data),
            USER_WRITER_PID,
            rw,
        ) && (rw is Ok ==> written == data.len() && t1 == t0.update(
            fd as int,
            Some((p, (off + data.len()) as usize)),
        )) && (rw is Err ==> written == SYS_ERR && t1 == t0);
    assert(rw is Ok);
    let content = spliced(read_contents(rr), off as int, data);
    assert(t1[other as int] == t0[other as int]);
    let i = vm.resolve_spec(p)->Ok_0;
    vm.lemma_walk_in_range(crate::vfs::components(p));
    vm.lemma_walk_same(v1, i as int, crate::vfs::components(p));
    assert(v1.resolve_spec(p) == vm.resolve_spec(p));
    let rr2 = choose|rr2: Result<Vec<u8>, &'static str>|
        #[trigger] v1.read_outcome(v2, a1, a2, p, rr2) && match rr2 {
            Ok(d) => read_served(d@, t1, t2, other, p, off, len, read),
            Err(_) => read.0 == SYS_ERR && read.1@.len() == 0 && t2 == t1,
        };
    crate::vfs_laws::law_read_after_write(vm, v1, v2, am, a1, a2, p, content, USER_WRITER_PID, rr2);
    assert(served(content, off, len) =~= data.subrange(0, len as int));
}

/// The listing of a directory's entries in UTF-8.
fn listing_bytes(vfs: &VirtualFileSystem, entries: &Vec<(String, usize)>) -> (b: Vec<u8>)
    requires
        vfs.wf(),
        forall|j: int| 0 <= j < entries@.len() ==> #[trigger] entries@[j].1 < vfs.inodes@.len(),
    ensures
        b@ == encode_utf8(listing_text(*vfs, entries@)),
{
    proof {
        reveal_strlit("");
        reveal_strlit("/\n");
        reveal_strlit("\n");
    }
    let mut text = String::from_str("");
    let mut k: usize = 0;
    assert(entries@.take(0) =~= Seq::<(String, usize)>::empty());
    while k < entries.len()
        invariant
            k <= entries@.len(),
            forall|j: int| 0 <= j < entries@.len() ==> #[trigger] entries@[j].1 < vfs.inodes@.len(),
            text@ == listing_text(*vfs, entries@.take(k as int)),
        decreases entries@.len() - k,
    {
        let child = entries[k].1;
        let is_dir = vfs.inodes[child].is_directory();
        let ghost before = text@;
        text = text.concat(entries[k].0.as_str());
        proof {
            reveal_strlit("/\n");
            reveal_strlit("\n");
        }
        if is_dir {
            text = text.concat("/\n");
            assert("/\n"@ =~= seq!['/', '\n']);
        } else {
            text = text.concat("\n");
            assert("\n"@ =~= seq!['\n']);
        }
        proof {
            let t = entries@.take(k + 1);
            assert(t.drop_last() =~= entries@.take(k as int));
            assert(t.last() == entries@[k as int]);
        }
        k = k + 1;
    }
    assert(entries@.take(entries@.len() as int) =~= entries@);
    text.as_str().as_bytes_vec()
}

/// The bytes a read at `off` of at most `len` bytes serves from `data`.
fn serve(data: &Vec<u8>, off: usize, len: usize) -> (out: Vec<u8>)
    ensures
        out@ == served(data@, off, len),
{
    if off >= data.len() {
        return Vec::new();
    }
    let available = data.len() - off;
    let to_read = if available < len {
        available
    } else {
        len
    };
    slice_to_vec(slice_subrange(data.as_slice(), off, off + to_read))
}

impl FdTable {
    /// Reads at most `len` bytes through `fd`; `stdin` is the byte standard
    /// input delivered, if any. See `read_call_outcome`.
    pub fn read(
        &mut self,
        vfs: &mut VirtualFileSystem,
        allocator: &mut MemoryAllocator,
        fd: usize,
        len: usize,
        stdin: Option<u8>,
    ) -> (r: (u64, Vec<u8>))
        requires
            old(self).wf(),
            old(vfs).wf(),
            old(allocator).wf(),
        ensures
            final(self).wf(),
            final(vfs).wf(),
            final(allocator).wf(),
            read_call_outcome(
                *old(vfs),
                *final(vfs),
                *old(allocator),
                *final(allocator),
                old(self)@,
                final(self)@,
                fd,
                len,
                stdin,
                r,
            ),
    {
        if len == 0 {
            return (0, Vec::new());
        }
        if fd == 0 {
            return match stdin {
                Some(b) => {
                    let mut v: Vec<u8> = Vec::new();
                    v.push(b);
                    (1, v)
                },
                None => (0, Vec::new()),
            };
        }
        if fd < FIRST_FILE_FD || fd >= FD_SLOTS {
            return (0, Vec::new());
        }
        let (path, offset) = match &self.slots[fd] {
            Some(f) => (f.path.clone(), f.offset),
            None => {
                return (SYS_ERR, Vec::new());
            },
        };
        let ghost p = path@;
        assert(old(self)@[fd as int] == Some((p, offset)));
        let listing: Option<Vec<u8>> = match vfs.resolve_path(path.as_str()) {
            Ok(idx) => match &vfs.inodes[idx].inode_type {
                InodeType::Directory { entries } => {
                    proof {
                        assert forall|j: int| 0 <= j < entries@.len() implies #[trigger] entries@[j].1
                            < vfs.inodes@.len() by {
                            assert(vfs.inodes@[idx as int].inode_type->entries@[j] == entries@[j]);
                        }
                    }
                    Some(listing_bytes(vfs, entries))
                },
                InodeType::File { .. } => None,
            },
            Err(_) => None,
        };
        let data = match listing {
            Some(b) => b,
            None => {
                let rr = vfs.read_file(path.as_str(), allocator);
                match rr {
                    Ok(d) => d,
                    Err(_) => {
                        let e: Vec<u8> = Vec::new();
                        assert(file_read_outcome(
                            *old(vfs),
                            *vfs,
                            *old(allocator),
                            *allocator,
                            old(self)@,
                            self@,
                            fd,
                            p,
                            offset,
                            len,
                            (SYS_ERR, e),
                        ));
                        return (SYS_ERR, e);
                    },
                }
            },
        };
        let out = serve(&data, offset, len);
        let n = out.len();
        let total = data.len();
        if n > 0 {
            assert(offset < total && n <= total - offset);
            let ghost before = self.slots@;
            self.slots.set(fd, Some(OpenFile { path, offset: offset + n }));
            proof {
                assert forall|j: int| 0 <= j < FD_SLOTS implies #[trigger] self@[j] == old(self)@.update(
                    fd as int,
                    Some((p, (offset + n) as usize)),
                )[j] by {
                    if j != fd {
                        assert(self.slots@[j] == before[j]);
                    }
                }
                assert(self@ =~= old(self)@.update(fd as int, Some((p, (offset + n) as usize))));
            }
        }
        (n as u64, out)
    }
}

/// `old` with `data` written at `off`.
fn splice_into(contents: &mut Vec<u8>, off: usize, data: &[u8])
    requires
        off + data@.len() <= usize::MAX,
    ensures
        final(contents)@ == spliced(old(contents)@, off as int, data@),
{
    let new_len = off + data.len();
    if contents.len() < new_len {
        contents.resize(new_len, 0u8);
    }
    let ghost grown = contents@;
    assert(grown.len() >= new_len);
    let mut k: usize = 0;
    while k < data.len()
        invariant
            k <= data@.len(),
            new_len == off + data@.len(),
            grown.len() >= new_len,
            contents@.len() == grown.len(),
            forall|j: int|
                0 <= j < contents@.len() ==> #[trigger] contents@[j] == if off <= j < off + k {
                    data@[j - off]
                } else {
                    grown[j]
                },
        decreases data@.len() - k,
    {
        contents.set(off + k, data[k]);
        k = k + 1;
    }
    proof {
        let o = old(contents)@;
        assert forall|j: int| 0 <= j < grown.len() implies #[trigger] grown[j] == if j < o.len() {
            o[j]
        } else {
            0u8
        } by {
            if o.len() < new_len {
                if j < o.len() {
                    assert(grown.subrange(0, o.len() as int)[j] == grown[j]);
                }
            }
        }
    }
    assert(contents@ =~= spliced(old(contents)@, off as int, data@));
}

impl FdTable {
    /// Writes `data` through `fd`; see `write_call_outcome`. The position
    /// after the write must fit a `usize`.
    pub fn write(
        &mut self,
        vfs: &mut VirtualFileSystem,
        allocator: &mut MemoryAllocator,
        fd: usize,
        data: &[u8],
    ) -> (r: u64)
        requires
            old(self).wf(),
            old(vfs).wf(),
            old(allocator).wf(),
            FIRST_FILE_FD <= fd < FD_SLOTS ==> (old(self)@[fd as int] matches Some((_, off)) ==> off
                + data@.len() <= usize::MAX),
        ensures
            final(self).wf(),
            final(vfs).wf(),
            final(allocator).wf(),
            write_call_outcome(
                *old(vfs),
                *final(vfs),
                *old(allocator),
                *final(allocator),
                old(self)@,
                final(self)@,
                fd,
                data@,
                r,
            ),
    {
        if data.len() == 0 {
            return 0;
        }
        if fd == 1 || fd == 2 {
            return data.len() as u64;
        }
        if fd < FIRST_FILE_FD || fd >= FD_SLOTS {
            return SYS_ERR;
        }
        let (path, offset) = match &self.slots[fd] {
            Some(f) => (f.path.clone(), f.offset),
            None => {
                return SYS_ERR;
            },
        };
        let ghost p = path@;
        assert(old(self)@[fd as int] == Some((p, offset)));
        let ghost v0 = *vfs;
        let ghost a0 = *allocator;
        let rr = vfs.read_file(path.as_str(), allocator);
        let ghost vm = *vfs;
        let ghost am = *allocator;
        let ghost rr_g = rr;
        let mut contents = match rr {
            Ok(d) => d,
            Err(_) => Vec::new(),
        };
        assert(contents@ == read_contents(rr_g));
        splice_into(&mut contents, offset, data);
        let rw = vfs.write_file(path.as_str(), contents.as_slice(), allocator, USER_WRITER_PID);
        match rw {
            Ok(_) => {
                let ghost before = self.slots@;
                self.slots.set(fd, Some(OpenFile { path, offset: offset + data.len() }));
                proof {
                    assert forall|j: int| 0 <= j < FD_SLOTS implies #[trigger] self@[j] == old(self)@.update(
                        fd as int,
                        Some((p, (offset + data@.len()) as usize)),
                    )[j] by {
                        if j != fd {
                            assert(self.slots@[j] == before[j]);
                        }
                    }
                    assert(self@ =~= old(self)@.update(fd as int, Some((p, (offset + data@.len()) as usize))));
                    assert(v0.read_outcome(vm, a0, am, p, rr_g));
                }
                data.len() as u64
            },
            Err(_) => {
                assert(v0.read_outcome(vm, a0, am, p, rr_g));
                SYS_ERR
            },
        }
    }
}

/// Creates the directory `raw_path` (made absolute); see
/// `mkdir_call_outcome`.
pub fn make_directory(vfs: &mut VirtualFileSystem, raw_path: &str) -> (r: u64)
    requires
        old(vfs).wf(),
    ensures
        final(vfs).wf(),
        mkdir_call_outcome(*old(vfs), *final(vfs), raw_path@, r),
{
    if raw_path.unicode_len() == 0 {
        return SYS_ERR;
    }
    let path = absolute_user_path(raw_path);
    let (parent, name) = split_path(path.as_str());
    let pc = strip_leading_slashes(parent.as_str());
    proof {
        reveal_strlit("/");
        assert("/"@ =~= seq!['/']);
    }
    if pc.unicode_len() > 0 {
        let rm = vfs.mkdir("/", pc);
        assert(old(vfs).create_outcome(*vfs, seq!['/'], trim_leading_slashes(parent@), true, rm));
    }
    assert(parent_prepared(*old(vfs), *vfs, parent@));
    let ghost mid = *vfs;
    let rc = vfs.mkdir(parent.as_str(), name.as_str());
    let r: u64 = match rc {
        Ok(_) => 0,
        Err(_) => SYS_ERR,
    };
    proof {
        let (sp, sn) = split_path_spec(user_path(raw_path@));
        assert(sp == parent@ && sn == name@);
        assert(parent_prepared(*old(vfs), mid, sp) && mid.create_outcome(*vfs, sp, sn, true, rc) && r == if rc
            is Ok {
            0u64
        } else {
            SYS_ERR
        });
    }
    r
}

} // verus!
