//! Decisions of the telemetry dashboard and of its file shell: how a page
//! frame and an event are marked, and the shell commands that change the
//! file system.
use vstd::prelude::*;
use vstd::string::*;
use vstd::utf8::encode_utf8;
use crate::text::{dec, fmt_dec};
use crate::shell::{contains_seq, contains_text, first_space, split_at_first_space, strip_prefix_text};
use crate::paths::{absolute_spec, split_path_spec, resolve_absolute_path, split_path};
use crate::allocator::{PageStatus, PhysicalFrame, PAGE_SIZE};
use crate::ecc::{decode, DecodeResult, recovered_byte};
use crate::kernel_core::SystemCore;
use crate::dispatcher::log_after;
use crate::vfs::VirtualFileSystem;

verus! {

/// The mark of a page frame on the dashboard grid: the initial of the
/// process owning it (`T`elemetry 101, `N`avigation 102, `L`ife support
/// 103), `*` for another owner, `X` for a free quarantined frame, a space
/// for a free one.
pub open spec fn tag_of(owner: Option<u32>, status: PageStatus) -> char {
    match owner {
        Some(pid) => if pid == 101 {
            'T'
        } else if pid == 102 {
            'N'
        } else if pid == 103 {
            'L'
        } else {
            '*'
        },
        None => if status == PageStatus::Quarantined {
            'X'
        } else {
            ' '
        },
    }
}

/// The mark of a page frame on the dashboard grid; see `tag_of`.
pub fn frame_tag(owner: Option<u32>, status: PageStatus) -> (c: char)
    ensures
        c == tag_of(owner, status),
{
    match owner {
        Some(101) => 'T',
        Some(102) => 'N',
        Some(103) => 'L',
        Some(_) => '*',
        None => if status == PageStatus::Quarantined {
            'X'
        } else {
            ' '
        },
    }
}

/// How an event line is highlighted.
#[derive(Debug, Clone, Copy, PartialEq, Eq, Structural)]
pub enum EventTone {
    /// A fault or a warning.
    Alert,
    /// A repair.
    Repair,
    /// Anything else.
    Plain,
}

/// The highlight of an event line: an alert when it mentions a fault, a
/// severe error or a warning; a repair when it mentions an ECC repair, a
/// hot swap or a redundancy success; plain otherwise.
pub open spec fn tone_of(line: Seq<char>) -> EventTone {
    if contains_seq(line, "FAULT"@) || contains_seq(line, "SEVERE"@) || contains_seq(line, "WARNING"@) {
        EventTone::Alert
    } else if contains_seq(line, "ECC REPAIR"@) || contains_seq(line, "HOT-SWAP"@) || contains_seq(
        line,
        "TMR SUCCESS"@,
    ) {
        EventTone::Repair
    } else {
        EventTone::Plain
    }
}

/// The highlight of an event line; see `tone_of`.
pub fn event_tone(line: &str) -> (t: EventTone)
    ensures
        t == tone_of(line@),
{
    if contains_text(line, "FAULT") || contains_text(line, "SEVERE") || contains_text(line, "WARNING") {
        EventTone::Alert
    } else if contains_text(line, "ECC REPAIR") || contains_text(line, "HOT-SWAP") || contains_text(
        line,
        "TMR SUCCESS",
    ) {
        EventTone::Repair
    } else {
        EventTone::Plain
    }
}

/// The bytes a page frame holds, each word decoded, an uncorrectable word
/// read as zero.
pub fn page_bytes(frame: &PhysicalFrame) -> (b: Vec<u8>)
    ensures
        b@.len() == PAGE_SIZE,
        forall|i: int| 0 <= i < PAGE_SIZE ==> #[trigger] b@[i] == recovered_byte(frame.data[i]),
{
    let mut b: Vec<u8> = Vec::new();
    let mut i: usize = 0;
    while i < PAGE_SIZE
        invariant
            i <= PAGE_SIZE,
            b@.len() == i,
            forall|k: int| 0 <= k < i ==> #[trigger] b@[k] == recovered_byte(frame.data[k]),
        decreases PAGE_SIZE - i,
    {
        let v = match decode(frame.data[i]) {
            DecodeResult::NoError(v) => v,
            DecodeResult::Corrected(v, _) => v,
            DecodeResult::Uncorrectable => 0,
        };
        b.push(v);
        i = i + 1;
    }
    b
}

/// `c1` is `c0` with `msg` logged and its file system replaced.
pub open spec fn logged_with(c0: SystemCore, c1: SystemCore, msg: Seq<char>) -> bool {
    &&& c1 == SystemCore { vfs: c1.vfs, allocator: c1.allocator, dispatcher: c1.dispatcher, ..c0 }
    &&& c1.dispatcher.logs() == log_after(c0.dispatcher.logs(), msg)
    &&& c1.dispatcher.processes == c0.dispatcher.processes
}

/// What `mkdir` (or `touch`) of the shell does with the argument `arg` in
/// the directory `cwd`: creates the node at the absolute path, logging
/// it, or fails with the file system's error and changes nothing else.
pub open spec fn shell_created(
    c0: SystemCore,
    c1: SystemCore,
    cwd: Seq<char>,
    arg: Seq<char>,
    directory: bool,
    r: Result<String, &'static str>,
) -> bool {
    let path = absolute_spec(cwd, arg);
    created_at(c0, c1, path, split_path_spec(path), directory, r)
}

/// Creating the node `pn` of `path` and what follows.
pub open spec fn created_at(
    c0: SystemCore,
    c1: SystemCore,
    path: Seq<char>,
    pn: (Seq<char>, Seq<char>),
    directory: bool,
    r: Result<String, &'static str>,
) -> bool {
    exists|res: Result<usize, &'static str>|
        #[trigger] c0.vfs.create_outcome(c1.vfs, pn.0, pn.1, directory, res) && match res {
            Ok(_) => r matches Ok(p) && p@ == path && logged_with(
                SystemCore { vfs: c1.vfs, ..c0 },
                c1,
                (if directory {
                    "VFS SHELL: Created directory "@
                } else {
                    "VFS SHELL: Created empty file "@
                }) + path,
            ),
            Err(e) => r == Err::<String, &'static str>(e) && c1 == SystemCore { vfs: c1.vfs, ..c0 },
        }
}

impl SystemCore {
    /// The shell's `mkdir` (or `touch`); see `shell_created`. Returns the
    /// absolute path of the new node.
    pub fn shell_create(&mut self, cwd: &str, arg: &str, directory: bool) -> (r: Result<String, &'static str>)
        requires
            old(self).wf(),
        ensures
            final(self).wf(),
            shell_created(*old(self), *final(self), cwd@, arg@, directory, r),
    {
        let path = resolve_absolute_path(cwd, arg);
        let (parent, name) = split_path(path.as_str());
        let res = if directory {
            self.vfs.mkdir(parent.as_str(), name.as_str())
        } else {
            self.vfs.create_file(parent.as_str(), name.as_str())
        };
        let ghost mid = *self;
        let ghost pn = split_path_spec(path@);
        assert(old(self).vfs.create_outcome(self.vfs, pn.0, pn.1, directory, res));
        match res {
            Ok(_) => {
                let msg = String::from_str(
                    if directory {
                        "VFS SHELL: Created directory "
                    } else {
                        "VFS SHELL: Created empty file "
                    },
                ).concat(path.as_str());
                self.dispatcher.log_event(msg.as_str());
                assert(created_at(*old(self), *self, path@, pn, directory, Ok(path)));
                Ok(path)
            },
            Err(e) => {
                assert(created_at(*old(self), *self, path@, pn, directory, Err(e)));
                Err(e)
            },
        }
    }
}

/// Why the shell's `write` wrote nothing.
#[derive(Debug, Clone, Copy, PartialEq, Eq)]
pub enum ShellWriteError {
    /// No argument at all.
    NoArgument,
    /// A path without text after it.
    NoContent,
    /// The missing file could not be created.
    CreateFailed,
    /// The file system refused the write.
    Write(&'static str),
}

/// What the shell's `write path text` does with the argument `arg` in the
/// directory `cwd`: creates the file when it is missing, then replaces its
/// contents with the text after the first space, logging it.
pub open spec fn shell_wrote(
    c0: SystemCore,
    c1: SystemCore,
    cwd: Seq<char>,
    arg: Seq<char>,
    r: Result<(String, usize), ShellWriteError>,
) -> bool {
    if arg.len() == 0 {
        c1 == c0 && r == Err::<(String, usize), ShellWriteError>(ShellWriteError::NoArgument)
    } else {
        match first_space(arg) {
            None => c1 == c0 && r == Err::<(String, usize), ShellWriteError>(ShellWriteError::NoContent),
            Some(i) => wrote_at(c0, c1, absolute_spec(cwd, arg.subrange(0, i)), arg.subrange(i + 1, arg.len() as int), r),
        }
    }
}

/// Writing `content` to `path`, creating the file first when it is
/// missing.
pub open spec fn wrote_at(
    c0: SystemCore,
    c1: SystemCore,
    path: Seq<char>,
    content: Seq<char>,
    r: Result<(String, usize), ShellWriteError>,
) -> bool {
    if c0.vfs.resolve_spec(path) is Err {
        exists|v: VirtualFileSystem, cres: Result<usize, &'static str>|
            #[trigger] c0.vfs.create_outcome(v, split_path_spec(path).0, split_path_spec(path).1, false, cres) && if cres
                is Err {
                c1 == SystemCore { vfs: v, ..c0 } && r == Err::<(String, usize), ShellWriteError>(
                    ShellWriteError::CreateFailed,
                )
            } else {
                written(SystemCore { vfs: v, ..c0 }, c1, path, content, r)
            }
    } else {
        written(c0, c1, path, content, r)
    }
}

/// Writing `content` to the existing file `path` and logging it.
pub open spec fn written(
    c0: SystemCore,
    c1: SystemCore,
    path: Seq<char>,
    content: Seq<char>,
    r: Result<(String, usize), ShellWriteError>,
) -> bool {
    let data = encode_utf8(content);
    exists|res: Result<(), &'static str>|
        #[trigger] c0.vfs.write_outcome(c1.vfs, c0.allocator, c1.allocator, path, data, 0, res) && match res {
            Ok(_) => r matches Ok((p, n)) && p@ == path && n == data.len() && logged_with(
                SystemCore { vfs: c1.vfs, allocator: c1.allocator, ..c0 },
                c1,
                "VFS SHELL: Wrote "@ + dec(n as nat) + " bytes to file "@ + path,
            ),
            Err(e) => r == Err::<(String, usize), ShellWriteError>(ShellWriteError::Write(e)) && c1 == SystemCore {
                vfs: c1.vfs,
                allocator: c1.allocator,
                ..c0
            },
        }
}

impl SystemCore {
    /// Writes `content` to the existing file `path`; see `written`.
    fn shell_write_existing(&mut self, path: String, content: &str) -> (r: Result<(String, usize), ShellWriteError>)
        requires
            old(self).wf(),
        ensures
            final(self).wf(),
            written(*old(self), *final(self), path@, content@, r),
    {
        let bytes = content.as_bytes();
        let res = self.vfs.write_file(path.as_str(), bytes, &mut self.allocator, 0);
        let ghost data = encode_utf8(content@);
        assert(old(self).vfs.write_outcome(self.vfs, old(self).allocator, self.allocator, path@, data, 0, res));
        match res {
            Ok(_) => {
                let n = bytes.len();
                let msg = String::from_str("VFS SHELL: Wrote ").concat(fmt_dec(n).as_str()).concat(
                    " bytes to file ",
                ).concat(path.as_str());
                let ghost mid = *self;
                self.dispatcher.log_event(msg.as_str());
                assert(logged_with(mid, *self, msg@));
                Ok((path, n))
            },
            Err(e) => Err(ShellWriteError::Write(e)),
        }
    }

    /// The shell's `write path text`; see `shell_wrote`. Returns the
    /// absolute path and the number of bytes written.
    pub fn shell_write(&mut self, cwd: &str, arg: &str) -> (r: Result<(String, usize), ShellWriteError>)
        requires
            old(self).wf(),
        ensures
            final(self).wf(),
            shell_wrote(*old(self), *final(self), cwd@, arg@, r),
    {
        if arg.unicode_len() == 0 {
            return Err(ShellWriteError::NoArgument);
        }
        let (file_arg, content) = match split_at_first_space(arg) {
            Some(pair) => pair,
            None => {
                return Err(ShellWriteError::NoContent);
            },
        };
        let path = resolve_absolute_path(cwd, file_arg.as_str());
        if self.vfs.resolve_path(path.as_str()).is_err() {
            let (parent, name) = split_path(path.as_str());
            let created = self.vfs.create_file(parent.as_str(), name.as_str());
            let ghost v = self.vfs;
            let ghost pn = split_path_spec(path@);
            assert(old(self).vfs.create_outcome(v, pn.0, pn.1, false, created));
            if created.is_err() {
                return Err(ShellWriteError::CreateFailed);
            }
            let ghost mid = *self;
            let r = self.shell_write_existing(path, content.as_str());
            assert(written(mid, *self, absolute_spec(cwd@, file_arg@), content@, r));
            r
        } else {
            self.shell_write_existing(path, content.as_str())
        }
    }
}

/// Why the shell's `rm` removed nothing.
#[derive(Debug, Clone, Copy, PartialEq, Eq)]
pub enum ShellRmError {
    /// No argument at all.
    NoArgument,
    /// `-rf` without a path.
    NoPath,
    /// The file system refused the removal.
    Remove(&'static str),
}

/// What the shell's `rm [-rf] path` does with the argument `arg` in the
/// directory `cwd`.
pub open spec fn shell_removed(
    c0: SystemCore,
    c1: SystemCore,
    cwd: Seq<char>,
    arg: Seq<char>,
    r: Result<(String, bool), ShellRmError>,
) -> bool {
    if arg.len() == 0 {
        c1 == c0 && r == Err::<(String, bool), ShellRmError>(ShellRmError::NoArgument)
    } else if arg.len() >= 4 && arg.subrange(0, 4) == "-rf "@ {
        removed_at(c0, c1, absolute_spec(cwd, arg.subrange(4, arg.len() as int)), true, r)
    } else if arg == "-rf"@ {
        c1 == c0 && r == Err::<(String, bool), ShellRmError>(ShellRmError::NoPath)
    } else {
        removed_at(c0, c1, absolute_spec(cwd, arg), false, r)
    }
}

/// Removing the node at `path` and logging it.
pub open spec fn removed_at(
    c0: SystemCore,
    c1: SystemCore,
    path: Seq<char>,
    recursive: bool,
    r: Result<(String, bool), ShellRmError>,
) -> bool {
    exists|res: Result<(), &'static str>|
        #[trigger] c0.vfs.remove_outcome(c1.vfs, c0.allocator, c1.allocator, path, recursive, res) && match res {
            Ok(_) => r matches Ok((p, rec)) && p@ == path && rec == recursive && logged_with(
                SystemCore { vfs: c1.vfs, allocator: c1.allocator, ..c0 },
                c1,
                "VFS SHELL: Removed node "@ + path + " (recursive: "@ + (if recursive {
                    "true"@
                } else {
                    "false"@
                }) + ")"@,
            ),
            Err(e) => r == Err::<(String, bool), ShellRmError>(ShellRmError::Remove(e)) && c1 == SystemCore {
                vfs: c1.vfs,
                allocator: c1.allocator,
                ..c0
            },
        }
}

impl SystemCore {
    /// Removes the node at `path`; see `removed_at`.
    fn shell_remove_at(&mut self, path: String, recursive: bool) -> (r: Result<(String, bool), ShellRmError>)
        requires
            old(self).wf(),
        ensures
            final(self).wf(),
            removed_at(*old(self), *final(self), path@, recursive, r),
    {
        let res = self.vfs.remove_node(path.as_str(), recursive, &mut self.allocator);
        assert(old(self).vfs.remove_outcome(self.vfs, old(self).allocator, self.allocator, path@, recursive, res));
        match res {
            Ok(_) => {
                let msg = String::from_str("VFS SHELL: Removed node ").concat(path.as_str()).concat(
                    " (recursive: ",
                ).concat(
                    if recursive {
                        "true"
                    } else {
                        "false"
                    },
                ).concat(")");
                let ghost mid = *self;
                self.dispatcher.log_event(msg.as_str());
                assert(logged_with(mid, *self, msg@));
                Ok((path, recursive))
            },
            Err(e) => Err(ShellRmError::Remove(e)),
        }
    }

    /// The shell's `rm [-rf] path`; see `shell_removed`. Returns the
    /// absolute path and whether the removal was recursive.
    pub fn shell_rm(&mut self, cwd: &str, arg: &str) -> (r: Result<(String, bool), ShellRmError>)
        requires
            old(self).wf(),
        ensures
            final(self).wf(),
            shell_removed(*old(self), *final(self), cwd@, arg@, r),
    {
        proof {
            reveal_strlit("-rf ");
            reveal_strlit("-rf");
        }
        if arg.unicode_len() == 0 {
            return Err(ShellRmError::NoArgument);
        }
        match strip_prefix_text(arg, "-rf ") {
            Some(rest) => {
                let path = resolve_absolute_path(cwd, rest.as_str());
                self.shell_remove_at(path, true)
            },
            None => {
                if String::from_str(arg) == String::from_str("-rf") {
                    Err(ShellRmError::NoPath)
                } else {
                    let path = resolve_absolute_path(cwd, arg);
                    self.shell_remove_at(path, false)
                }
            },
        }
    }
}

/// Why the shell's `cd` stayed where it was.
#[derive(Debug, Clone, PartialEq, Eq)]
pub enum ShellCdError {
    /// The path names a file.
    NotDirectory(String),
    /// Nothing is at the path.
    NotFound(String),
}

/// The working directory after the shell's `cd arg` from `cwd`: the root
/// without an argument, else the absolute path when it names a directory.
pub open spec fn cd_target(v: VirtualFileSystem, cwd: Seq<char>, arg: Seq<char>, r: Result<String, ShellCdError>) -> bool {
    if arg.len() == 0 {
        r matches Ok(p) && p@ == "/"@
    } else {
        let path = absolute_spec(cwd, arg);
        match v.resolve_spec(path) {
            Ok(i) => if v.inodes@[i as int].inode_type is Directory {
                r matches Ok(p) && p@ == path
            } else {
                r matches Err(ShellCdError::NotDirectory(p)) && p@ == path
            },
            Err(_) => r matches Err(ShellCdError::NotFound(p)) && p@ == path,
        }
    }
}

/// The shell's `cd arg` from `cwd`; see `cd_target`.
pub fn shell_cd(v: &VirtualFileSystem, cwd: &str, arg: &str) -> (r: Result<String, ShellCdError>)
    requires
        v.wf(),
    ensures
        cd_target(*v, cwd@, arg@, r),
{
    proof {
        reveal_strlit("/");
    }
    if arg.unicode_len() == 0 {
        return Ok(String::from_str("/"));
    }
    let path = resolve_absolute_path(cwd, arg);
    match v.resolve_path(path.as_str()) {
        Ok(idx) => {
            if v.inodes[idx].is_directory() {
                Ok(path)
            } else {
                Err(ShellCdError::NotDirectory(path))
            }
        },
        Err(_) => Err(ShellCdError::NotFound(path)),
    }
}

} // verus!
