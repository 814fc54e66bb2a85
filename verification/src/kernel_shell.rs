//! The kernel console's command interpreter: each command line is run
//! against the kernel state and answered with the text the console prints.
use vstd::prelude::*;
use vstd::string::*;
use crate::text::{dec, fmt_dec, digit_char, digit_str, text_from_utf8};
use vstd::utf8::{encode_utf8, decode_utf8, valid_utf8};
use crate::shell::{spaces, pad_right, spaces_text, words, split_words, text_lines, head_lines, tail_lines, text_counts, n_flag_spec, parse_n_flag};
use crate::kernel_core::{SystemCore, flip_msg};
use crate::allocator::flip_outcome;
use crate::dispatcher::log_after;
use crate::keyboard::{KeyboardState, KeyboardLayout};
use crate::shell::{found_paths, texts, tree_lines, find_in_vfs, vfs_tree_lines};
use crate::dispatcher::KernelProcess;
use crate::dashboard::{owned_count, count_owned};
use crate::paths::{relative_spec, split_path_spec, resolve_relative_path, split_parent_child};
use crate::inode::InodeType;
use crate::vfs::VirtualFileSystem;

verus! {

/// What the console does once it has printed the first part of a reply.
pub enum ShellAction {
    /// Nothing more.
    Nothing,
    /// Runs the built-in user-mode demonstration.
    UserDemo,
    /// Loads and runs the given program in user mode.
    RunProgram(Vec<u8>),
}

/// The answer to a command line: the text printed first, the action taken
/// after it, then the text printed after the action.
pub struct CommandReply {
    /// Printed first.
    pub text: String,
    /// Done after `text`.
    pub action: ShellAction,
    /// Printed after the action.
    pub after: String,
}

/// A reply that only prints `t`.
pub open spec fn prints(r: CommandReply, t: Seq<char>) -> bool {
    r.text@ == t && r.action is Nothing && r.after@ == Seq::<char>::empty()
}

/// `s` in red, then a line break.
pub open spec fn red_line(s: Seq<char>) -> Seq<char> {
    "\x1B[38;5;196m"@ + s + "\x1B[0m\n"@
}

/// A rule of sixty dashes, then a line break.
pub open spec fn dash_line() -> Seq<char> {
    "------------------------------------------------------------\n"@
}

/// `s` padded on the left with spaces to at least `n` characters.
pub open spec fn pad_left(s: Seq<char>, n: int) -> Seq<char> {
    spaces(n - s.len()) + s
}

/// The words `ws` joined by single spaces.
pub open spec fn joined(ws: Seq<Seq<char>>) -> Seq<char>
    decreases ws.len(),
{
    if ws.len() == 0 {
        Seq::empty()
    } else if ws.len() == 1 {
        ws[0]
    } else {
        joined(ws.drop_last()) + " "@ + ws.last()
    }
}

/// The items of `s` in decimal, separated by `, `.
pub open spec fn list_items(s: Seq<usize>) -> Seq<char>
    decreases s.len(),
{
    if s.len() == 0 {
        Seq::empty()
    } else if s.len() == 1 {
        dec(s[0] as nat)
    } else {
        list_items(s.drop_last()) + ", "@ + dec(s.last() as nat)
    }
}

/// A list of numbers as Rust's debug format writes it: `[1, 2]`.
pub open spec fn list_text(s: Seq<usize>) -> Seq<char> {
    "["@ + list_items(s) + "]"@
}

/// The text of `help`.
pub open spec fn help_text() -> Seq<char> {
    "============================================================\n         AE RUSTANIUM BARE-METAL INTERACTIVE SHELL          \n============================================================\nFile System:\n  ls [path]        - List directory contents\n  pwd              - Print current working directory\n  cd <path>        - Change working directory (.. supported)\n  mkdir <path>     - Create a new directory\n  touch <path>     - Create an empty file\n  write <p> <txt>  - Write text into a file\n  cat <path>       - Display file content\n  head [-n] <path> - Show first N lines of a file (default 10)\n  tail [-n] <path> - Show last N lines of a file (default 10)\n  wc <path>        - Count lines, words, bytes in file\n  cp <src> <dst>   - Copy a file to a new location\n  mv <src> <dst>   - Move / rename a file or directory\n  rm [-rf] <path>  - Remove file or directory recursively\n  find <name>      - Search VFS tree for a name\n  vfs              - Print the full VFS tree\nSystem:\n  echo <text>      - Print text to the console\n  uname            - Print kernel and hardware identity\n  uptime           - Show system uptime in ticks and seconds\n  free             - Show heap and page allocator memory usage\n  whoami           - Print current user identity\n  hostname         - Print the system hostname\n  history          - List previously executed commands\n  loadkeys <lay>   - Switch keyboard layout (us, trq)\n  status           - Microkernel health & memory metrics\n  tasks            - List running microservices\n  usermode         - Launch Ring 3 User Space & Syscall demonstration\n  run <path>       - Dynamically load and run a Ring 3 VFS binary\n  inject-flip      - Inject synthetic radiation bit flip\n  clear            - Clear the console screen\n  help             - Show this help menu\n============================================================\n"@
}

/// The text of `uname`.
pub open spec fn uname_text() -> Seq<char> {
    "AE-RUSTANIUM 0.1.0 bare-metal x86_64 UEFI/BIOS\nKernel: no_std Rust microkernel (nightly)\nArch:   x86_64  |  CPU: AMD/Intel 64-bit\nBoot:   UEFI GOP + Legacy BIOS MBR\n"@
}

/// The text of `uptime` after `ticks` timer ticks, 50 to the second.
pub open spec fn uptime_text(ticks: nat) -> Seq<char> {
    "Uptime: "@ + dec(ticks) + " ticks  (~"@ + dec(ticks / 50) + " seconds)\n"@
        + "Load:   cooperative round-robin scheduler \u{2014} 3 threads active\n"@
}

/// The text of `status`.
pub open spec fn status_text(c: SystemCore) -> Seq<char> {
    dash_line() + "SYSTEM HEALTH & PHYSICAL MEMORY STATUS\n"@ + dash_line() + "Scrubber Sweeps:           "@ + dec(
        c.scrubber_sweeps as nat,
    ) + "\n"@ + "ECC SECDED Corrections:    "@ + dec(c.ecc_single_bit_corrections as nat) + "\n"@
        + "Pages Quarantined:         "@ + dec(c.pages_quarantined as nat) + "\n"@ + "Pages Relocated:           "@
        + dec(c.pages_relocated as nat) + "\n"@ + "TMR CPU Operations:        "@ + dec(c.critical_tmr_ops as nat)
        + "\n"@ + "TMR ALU Corrections:       "@ + dec(c.tmr_voter_corrections as nat) + "\n"@
        + "Allocated Page Frames:     "@ + dec(owned_count(c.allocator.allocation_map@)) + "/"@ + dec(
        c.allocator.allocation_map@.len(),
    ) + "\n"@ + dash_line()
}

/// The text of `free`.
pub open spec fn free_text(c: SystemCore) -> Seq<char> {
    let total = c.allocator.allocation_map@.len();
    let used = owned_count(c.allocator.allocation_map@);
    dash_line() + "MEMORY USAGE (Page Allocator)\n"@ + dash_line() + "Total  pages : "@ + dec(total) + "\n"@
        + "Used   pages : "@ + dec(used) + "\n"@ + "Free   pages : "@ + dec((total - used) as nat) + "\n"@
        + "Page size    : 64 bytes (SECDED Hamming blocks)\n"@
        + "Heap         : 1 MB LockedHeap (linked-list allocator)\n"@ + dash_line()
}

/// The row of `tasks` for process `p`.
pub open spec fn task_row(p: KernelProcess) -> Seq<char> {
    pad_right(dec(p.pid as nat), 5) + " | "@ + pad_right(p.name@, 16) + " | "@ + pad_right(
        if p.is_critical {
            "YES (TMR)"@
        } else {
            "NO"@
        },
        8,
    ) + " | "@ + list_text(p.allocated_pages@) + "\n"@
}

/// The rows of `tasks` for the first `n` processes.
pub open spec fn task_rows(ps: Seq<KernelProcess>, n: nat) -> Seq<char>
    decreases n,
{
    if n == 0 {
        Seq::empty()
    } else {
        task_rows(ps, (n - 1) as nat) + task_row(ps[n - 1])
    }
}

/// The text of `tasks`.
pub open spec fn tasks_text(ps: Seq<KernelProcess>) -> Seq<char> {
    dash_line() + "RUNNING MICROSERVICES\n"@ + dash_line() + pad_right("PID"@, 5) + " | "@ + pad_right(
        "Process Name"@,
        16,
    ) + " | "@ + pad_right("Critical"@, 8) + " | Allocated Pages\n"@
        + "------+------------------+----------+-----------------\n"@ + task_rows(ps, ps.len()) + dash_line()
}

/// The lines of `history` for the first `n` entries, numbered from 1.
pub open spec fn history_lines(h: Seq<Seq<char>>, n: nat) -> Seq<char>
    decreases n,
{
    if n == 0 {
        Seq::empty()
    } else {
        history_lines(h, (n - 1) as nat) + pad_left(dec(n), 4) + "  "@ + h[n - 1] + "\n"@
    }
}

/// The text of `history`.
pub open spec fn history_text(h: Seq<Seq<char>>) -> Seq<char> {
    if h.len() == 0 {
        "(no command history yet)\n"@
    } else {
        history_lines(h, h.len())
    }
}

/// `s` padded on the left with spaces to at least `n` characters.
fn pad_left_text(s: &str, n: usize) -> (r: String)
    ensures
        r@ == pad_left(s@, n as int),
{
    let len = s.unicode_len();
    let pad = if len < n {
        n - len
    } else {
        0
    };
    proof {
        assert(spaces(pad as int) =~= spaces(n - s@.len()));
    }
    spaces_text(pad).concat(s)
}

/// `s` padded on the right with spaces to at least `n` characters.
fn pad_right_text(s: &str, n: usize) -> (r: String)
    ensures
        r@ == pad_right(s@, n as int),
{
    let len = s.unicode_len();
    let pad = if len < n {
        n - len
    } else {
        0
    };
    proof {
        assert(spaces(pad as int) =~= spaces(n - s@.len()));
    }
    let mut r = String::from_str(s);
    r.append(spaces_text(pad).as_str());
    r
}

/// The words of `ws` from the `from`-th on, joined by single spaces.
pub fn join_words(ws: &Vec<String>, from: usize) -> (r: String)
    requires
        from <= ws@.len(),
    ensures
        r@ == joined(ws.deep_view().skip(from as int)),
{
    proof {
        reveal_strlit(" ");
    }
    let mut r = String::new();
    let mut i: usize = from;
    proof {
        assert(ws.deep_view().skip(from as int).take(0) =~= Seq::<Seq<char>>::empty());
    }
    while i < ws.len()
        invariant
            from <= i <= ws@.len(),
            r@ == joined(ws.deep_view().skip(from as int).take(i - from)),
        decreases ws@.len() - i,
    {
        let ghost before = ws.deep_view().skip(from as int).take(i - from);
        let ghost after = ws.deep_view().skip(from as int).take(i + 1 - from);
        proof {
            assert(after.drop_last() =~= before);
            assert(after.last() == ws@[i as int]@);
        }
        if i > from {
            r.append(" ");
        }
        r.append(ws[i].as_str());
        proof {
            if i == from {
                assert(after =~= seq![ws@[i as int]@]);
            }
        }
        i = i + 1;
    }
    proof {
        assert(ws.deep_view().skip(from as int).take(ws@.len() - from) =~= ws.deep_view().skip(from as int));
    }
    r
}

/// Rust's debug format of a list of numbers: `[1, 2]`.
fn list_string(s: &Vec<usize>) -> (r: String)
    ensures
        r@ == list_text(s@),
{
    proof {
        reveal_strlit("[");
        reveal_strlit("]");
        reveal_strlit(", ");
    }
    let mut items = String::new();
    let mut i: usize = 0;
    while i < s.len()
        invariant
            i <= s@.len(),
            items@ == list_items(s@.take(i as int)),
        decreases s@.len() - i,
    {
        proof {
            assert(s@.take(i + 1).drop_last() =~= s@.take(i as int));
        }
        if i > 0 {
            items.append(", ");
        }
        items.append(fmt_dec(s[i]).as_str());
        i = i + 1;
    }
    assert(s@.take(s@.len() as int) =~= s@);
    String::from_str("[").concat(items.as_str()).concat("]")
}

/// The text of `status`.
fn status_report(c: &SystemCore) -> (r: String)
    ensures
        r@ == status_text(*c),
{
    let dash = "------------------------------------------------------------\n";
    let mut r = String::from_str(dash);
    r.append("SYSTEM HEALTH & PHYSICAL MEMORY STATUS\n");
    r.append(dash);
    r.append("Scrubber Sweeps:           ");
    r.append(fmt_dec(c.scrubber_sweeps).as_str());
    r.append("\n");
    r.append("ECC SECDED Corrections:    ");
    r.append(fmt_dec(c.ecc_single_bit_corrections).as_str());
    r.append("\n");
    r.append("Pages Quarantined:         ");
    r.append(fmt_dec(c.pages_quarantined).as_str());
    r.append("\n");
    r.append("Pages Relocated:           ");
    r.append(fmt_dec(c.pages_relocated).as_str());
    r.append("\n");
    r.append("TMR CPU Operations:        ");
    r.append(fmt_dec(c.critical_tmr_ops).as_str());
    r.append("\n");
    r.append("TMR ALU Corrections:       ");
    r.append(fmt_dec(c.tmr_voter_corrections).as_str());
    r.append("\n");
    let allocated = count_owned(&c.allocator.allocation_map);
    r.append("Allocated Page Frames:     ");
    r.append(fmt_dec(allocated).as_str());
    r.append("/");
    r.append(fmt_dec(c.allocator.allocation_map.len()).as_str());
    r.append("\n");
    r.append(dash);
    r
}

/// The text of `free`.
fn free_report(c: &SystemCore) -> (r: String)
    ensures
        r@ == free_text(*c),
{
    let total = c.allocator.allocation_map.len();
    let used = count_owned(&c.allocator.allocation_map);
    proof {
        lemma_owned_count_le(c.allocator.allocation_map@);
    }
    let dash = "------------------------------------------------------------\n";
    let mut r = String::from_str(dash);
    r.append("MEMORY USAGE (Page Allocator)\n");
    r.append(dash);
    r.append("Total  pages : ");
    r.append(fmt_dec(total).as_str());
    r.append("\n");
    r.append("Used   pages : ");
    r.append(fmt_dec(used).as_str());
    r.append("\n");
    r.append("Free   pages : ");
    r.append(fmt_dec(total - used).as_str());
    r.append("\n");
    r.append("Page size    : 64 bytes (SECDED Hamming blocks)\n");
    r.append("Heap         : 1 MB LockedHeap (linked-list allocator)\n");
    r.append(dash);
    r
}

/// No more entries of a map are allocated than it has.
proof fn lemma_owned_count_le(map: Seq<Option<u32>>)
    ensures
        owned_count(map) <= map.len(),
    decreases map.len(),
{
    if map.len() > 0 {
        lemma_owned_count_le(map.drop_last());
    }
}

/// The row of `tasks` for process `p`.
fn task_row_string(p: &KernelProcess) -> (r: String)
    ensures
        r@ == task_row(*p),
{
    let mut r = pad_right_text(fmt_dec(p.pid as usize).as_str(), 5);
    r.append(" | ");
    r.append(pad_right_text(p.name.as_str(), 16).as_str());
    r.append(" | ");
    let crit = if p.is_critical {
        "YES (TMR)"
    } else {
        "NO"
    };
    r.append(pad_right_text(crit, 8).as_str());
    r.append(" | ");
    r.append(list_string(&p.allocated_pages).as_str());
    r.append("\n");
    r
}

/// The text of `tasks`.
fn tasks_report(ps: &Vec<KernelProcess>) -> (r: String)
    ensures
        r@ == tasks_text(ps@),
{
    let dash = "------------------------------------------------------------\n";
    let mut r = String::from_str(dash);
    r.append("RUNNING MICROSERVICES\n");
    r.append(dash);
    r.append(pad_right_text("PID", 5).as_str());
    r.append(" | ");
    r.append(pad_right_text("Process Name", 16).as_str());
    r.append(" | ");
    r.append(pad_right_text("Critical", 8).as_str());
    r.append(" | Allocated Pages\n");
    r.append("------+------------------+----------+-----------------\n");
    let ghost head = r@;
    let mut i: usize = 0;
    while i < ps.len()
        invariant
            i <= ps@.len(),
            r@ == head + task_rows(ps@, i as nat),
        decreases ps@.len() - i,
    {
        let row = task_row_string(&ps[i]);
        r.append(row.as_str());
        proof {
            assert(r@ =~= head + task_rows(ps@, (i + 1) as nat));
        }
        i = i + 1;
    }
    r.append(dash);
    r
}

/// The text of `history`.
fn history_report(h: &Vec<String>) -> (r: String)
    ensures
        r@ == history_text(h.deep_view()),
{
    if h.len() == 0 {
        return String::from_str("(no command history yet)\n");
    }
    let mut r = String::new();
    let mut i: usize = 0;
    while i < h.len()
        invariant
            i <= h@.len(),
            r@ == history_lines(h.deep_view(), i as nat),
        decreases h@.len() - i,
    {
        r.append(pad_left_text(fmt_dec(i + 1).as_str(), 4).as_str());
        r.append("  ");
        r.append(h[i].as_str());
        r.append("\n");
        proof {
            assert(h.deep_view()[i as int] == h@[i as int]@);
            assert(r@ =~= history_lines(h.deep_view(), (i + 1) as nat));
        }
        i = i + 1;
    }
    r
}

/// The text of `uptime` after `ticks` timer ticks.
fn uptime_report(ticks: usize) -> (r: String)
    ensures
        r@ == uptime_text(ticks as nat),
{
    let mut r = String::from_str("Uptime: ");
    r.append(fmt_dec(ticks).as_str());
    r.append(" ticks  (~");
    r.append(fmt_dec(ticks / 50).as_str());
    r.append(" seconds)\n");
    r.append("Load:   cooperative round-robin scheduler \u{2014} 3 threads active\n");
    r
}

/// `s` in red, then a line break.
fn red_text(s: &str) -> (r: String)
    ensures
        r@ == red_line(s@),
{
    let mut r = String::from_str("\x1B[38;5;196m");
    r.append(s);
    r.append("\x1B[0m\n");
    r
}

/// A reply that only prints `t`.
fn say(t: String) -> (r: CommandReply)
    ensures
        prints(r, t@),
{
    CommandReply { text: t, action: ShellAction::Nothing, after: String::new() }
}

/// `c1` is `c0` with only its file system changed.
pub open spec fn only_vfs(c0: SystemCore, c1: SystemCore) -> bool {
    c1 == SystemCore { vfs: c1.vfs, ..c0 }
}

/// `c1` is `c0` with only its file system and frames changed.
pub open spec fn only_storage(c0: SystemCore, c1: SystemCore) -> bool {
    c1 == SystemCore { vfs: c1.vfs, allocator: c1.allocator, ..c0 }
}

/// The line of `ls` for the entry `name` whose inode is `child`.
pub open spec fn entry_line(v: VirtualFileSystem, name: Seq<char>, child: usize) -> Seq<char> {
    if v.inodes@[child as int].inode_type is Directory {
        "  \x1B[38;5;33m"@ + name + "/\x1B[0m\n"@
    } else {
        "  "@ + name + "\n"@
    }
}

/// The lines of `ls` for the first `n` entries.
pub open spec fn entry_lines(v: VirtualFileSystem, entries: Seq<(String, usize)>, n: nat) -> Seq<char>
    decreases n,
{
    if n == 0 {
        Seq::empty()
    } else {
        entry_lines(v, entries, (n - 1) as nat) + entry_line(v, entries[n - 1].0@, entries[n - 1].1)
    }
}

/// The text of `ls` on the path `resolved`.
pub open spec fn ls_text(v: VirtualFileSystem, resolved: Seq<char>) -> Seq<char> {
    match v.resolve_spec(resolved) {
        Ok(idx) => match v.inodes@[idx as int].inode_type {
            InodeType::Directory { entries } => resolved + ":\n"@ + (if entries@.len() == 0 {
                "  (directory is empty)\n"@
            } else {
                Seq::empty()
            }) + entry_lines(v, entries@, entries@.len()),
            InodeType::File { size, .. } => v.inodes@[idx as int].name@ + " (file, "@ + dec(size as nat)
                + " bytes)\n"@,
        },
        Err(e) => red_line("[VFS ERR] Path resolve failed: "@ + e@),
    }
}

/// What `ls [path]` does: lists the directory (by default the working
/// one) or describes the file.
pub open spec fn ls_done(c0: SystemCore, c1: SystemCore, cwd: Seq<char>, args: Seq<Seq<char>>, r: CommandReply) -> bool {
    let target = if args.len() == 0 {
        cwd
    } else {
        args[0]
    };
    c1 == c0 && prints(r, ls_text(c0.vfs, relative_spec(cwd, target)))
}

/// What `mkdir path` and `touch path` do.
pub open spec fn create_done(
    c0: SystemCore,
    c1: SystemCore,
    cwd: Seq<char>,
    args: Seq<Seq<char>>,
    is_dir: bool,
    r: CommandReply,
) -> bool {
    if args.len() == 0 {
        c1 == c0 && prints(
            r,
            red_line(
                if is_dir {
                    "Usage: mkdir <path>"@
                } else {
                    "Usage: touch <path>"@
                },
            ),
        )
    } else {
        let full = relative_spec(cwd, args[0]);
        let (parent, name) = split_path_spec(full);
        exists|res: Result<usize, &'static str>|
            #[trigger] c0.vfs.create_outcome(c1.vfs, parent, name, is_dir, res) && only_vfs(c0, c1) && prints(
                r,
                match res {
                    Ok(_) => if is_dir {
                        "[VFS] Created directory: "@ + full + "\n"@
                    } else {
                        "[VFS] Created file: "@ + full + "\n"@
                    },
                    Err(e) => red_line(
                        (if is_dir {
                            "[VFS ERR] mkdir failed: "@
                        } else {
                            "[VFS ERR] touch failed: "@
                        }) + e@,
                    ),
                },
            )
    }
}

impl SystemCore {
    /// `ls [path]`; see `ls_done`.
    fn cmd_ls(&self, cwd: &str, args: &Vec<String>) -> (r: CommandReply)
        requires
            self.wf(),
        ensures
            ls_done(*self, *self, cwd@, args.deep_view(), r),
    {
        let target: &str = if args.len() == 0 {
            cwd
        } else {
            args[0].as_str()
        };
        assert(args.len() > 0 ==> args.deep_view()[0] == args@[0]@);
        let resolved = resolve_relative_path(cwd, target);
        let ghost v = self.vfs;
        match self.vfs.resolve_path(resolved.as_str()) {
            Ok(idx) => {
                match &self.vfs.inodes[idx].inode_type {
                    InodeType::Directory { entries } => {
                        let mut out = resolved.clone();
                        out.append(":\n");
                        if entries.len() == 0 {
                            out.append("  (directory is empty)\n");
                        } else {
                            assert(out@ + Seq::<char>::empty() =~= out@);
                        }
                        let ghost head = out@;
                        let mut k: usize = 0;
                        while k < entries.len()
                            invariant
                                v == self.vfs,
                                v.wf(),
                                idx < v.inodes@.len(),
                                v.inodes@[idx as int].inode_type == (InodeType::Directory { entries: *entries }),
                                k <= entries@.len(),
                                out@ == head + entry_lines(v, entries@, k as nat),
                            decreases entries@.len() - k,
                        {
                            let (name, child) = &entries[k];
                            assert(v.inodes@[idx as int].inode_type->entries@[k as int].1 < v.inodes@.len());
                            if self.vfs.inodes[*child].is_directory() {
                                out.append("  \x1B[38;5;33m");
                                out.append(name.as_str());
                                out.append("/\x1B[0m\n");
                            } else {
                                out.append("  ");
                                out.append(name.as_str());
                                out.append("\n");
                            }
                            proof {
                                assert(out@ =~= head + entry_lines(v, entries@, (k + 1) as nat));
                            }
                            k = k + 1;
                        }
                        say(out)
                    },
                    InodeType::File { size, .. } => {
                        let mut out = self.vfs.inodes[idx].name.clone();
                        out.append(" (file, ");
                        out.append(fmt_dec(*size).as_str());
                        out.append(" bytes)\n");
                        say(out)
                    },
                }
            },
            Err(e) => {
                let msg = String::from_str("[VFS ERR] Path resolve failed: ").concat(e);
                say(red_text(msg.as_str()))
            },
        }
    }

    /// `mkdir path` or `touch path`; see `create_done`.
    fn cmd_create(&mut self, cwd: &str, args: &Vec<String>, is_dir: bool) -> (r: CommandReply)
        requires
            old(self).wf(),
        ensures
            final(self).wf(),
            create_done(*old(self), *final(self), cwd@, args.deep_view(), is_dir, r),
    {
        if args.len() == 0 {
            return say(red_text(if is_dir { "Usage: mkdir <path>" } else { "Usage: touch <path>" }));
        }
        assert(args.deep_view()[0] == args@[0]@);
        let full_path = resolve_relative_path(cwd, args[0].as_str());
        let (parent_path, name) = split_parent_child(full_path.as_str());
        let res = if is_dir {
            self.vfs.mkdir(parent_path.as_str(), name.as_str())
        } else {
            self.vfs.create_file(parent_path.as_str(), name.as_str())
        };
        let reply = match res {
            Ok(_) => {
                let mut out = String::from_str(if is_dir { "[VFS] Created directory: " } else { "[VFS] Created file: " });
                out.append(full_path.as_str());
                out.append("\n");
                say(out)
            },
            Err(e) => {
                let msg = String::from_str(if is_dir { "[VFS ERR] mkdir failed: " } else { "[VFS ERR] touch failed: " }).concat(e);
                say(red_text(msg.as_str()))
            },
        };
        assert(old(self).vfs.create_outcome(self.vfs, parent_path@, name@, is_dir, res));
        assert(only_vfs(*old(self), *self));
        assert((parent_path@, name@) == split_path_spec(full_path@));
        assert(full_path@ == relative_spec(cwd@, args.deep_view()[0]));
        assert(prints(
            reply,
            match res {
                Ok(_) => if is_dir {
                    "[VFS] Created directory: "@ + full_path@ + "\n"@
                } else {
                    "[VFS] Created file: "@ + full_path@ + "\n"@
                },
                Err(e) => red_line(
                    (if is_dir {
                        "[VFS ERR] mkdir failed: "@
                    } else {
                        "[VFS ERR] touch failed: "@
                    }) + e@,
                ),
            },
        ));
        let ghost full = relative_spec(cwd@, args.deep_view()[0]);
        let ghost pn = split_path_spec(full);
        assert(old(self).vfs.create_outcome(self.vfs, pn.0, pn.1, is_dir, res));
        assert(create_done(*old(self), *self, cwd@, args.deep_view(), is_dir, reply));
        reply
    }
}

/// The lines `ls`, each followed by a line break.
pub open spec fn each_line(ls: Seq<Seq<char>>) -> Seq<char>
    decreases ls.len(),
{
    if ls.len() == 0 {
        Seq::empty()
    } else {
        each_line(ls.drop_last()) + ls.last() + "\n"@
    }
}

/// A byte as two uppercase hexadecimal digits.
pub open spec fn hex2(b: u8) -> Seq<char> {
    seq![digit_char((b / 16) as nat), digit_char((b % 16) as nat)]
}

/// The first `n` bytes of `d` in hexadecimal, each followed by a space,
/// sixteen to a line.
pub open spec fn hex_dump(d: Seq<u8>, n: nat) -> Seq<char>
    decreases n,
{
    if n == 0 {
        Seq::empty()
    } else {
        hex_dump(d, (n - 1) as nat) + hex2(d[n - 1]) + " "@ + if n % 16 == 0 || n == d.len() {
            "\n"@
        } else {
            Seq::empty()
        }
    }
}

/// What `cat` shows of a file's bytes: its text, ending with a line
/// break, when it is UTF-8; its bytes in hexadecimal otherwise.
pub open spec fn cat_body(d: Seq<u8>) -> Seq<char> {
    if valid_utf8(d) {
        let t = decode_utf8(d);
        t + if t.len() > 0 && t.last() == '\n' {
            Seq::empty()
        } else {
            "\n"@
        }
    } else {
        hex_dump(d, d.len())
    }
}

/// The file system and frames change only as reading `path` changes them,
/// with the result `res`.
pub open spec fn read_step(c0: SystemCore, c1: SystemCore, path: Seq<char>, res: Result<Vec<u8>, &'static str>) -> bool {
    c0.vfs.read_outcome(c1.vfs, c0.allocator, c1.allocator, path, res) && only_storage(c0, c1)
}

/// What `cat path` does.
pub open spec fn cat_done(c0: SystemCore, c1: SystemCore, cwd: Seq<char>, args: Seq<Seq<char>>, r: CommandReply) -> bool {
    if args.len() == 0 {
        c1 == c0 && prints(r, red_line("Usage: cat <file_path>"@))
    } else {
        let path = relative_spec(cwd, args[0]);
        exists|res: Result<Vec<u8>, &'static str>|
            #[trigger] read_step(c0, c1, path, res) && prints(
                r,
                match res {
                    Ok(d) => "--- "@ + path + " ---\n"@ + cat_body(d@) + "------------------\n"@,
                    Err(e) => red_line("[VFS ERR] Failed to read file "@ + path + ": "@ + e@),
                },
            )
    }
}

/// The line count `n` capped at the lines there are.
pub open spec fn capped(n: usize, len: nat) -> int {
    if n < len {
        n as int
    } else {
        len as int
    }
}

/// What `head` or `tail` shows of a file's bytes: its first (or last) `n`
/// lines when it is UTF-8, its size otherwise.
pub open spec fn lines_body(d: Seq<u8>, n: usize, from_end: bool) -> Seq<char> {
    if valid_utf8(d) {
        let ls = text_lines(decode_utf8(d));
        if from_end {
            each_line(ls.skip(ls.len() - capped(n, ls.len())))
        } else {
            each_line(ls.take(capped(n, ls.len())))
        }
    } else {
        "(binary file \u{2014} "@ + dec(d.len()) + " bytes)\n"@
    }
}

/// What `head [-n count] path` (or `tail`, `from_end`) does.
pub open spec fn lines_done(
    c0: SystemCore,
    c1: SystemCore,
    cwd: Seq<char>,
    args: Seq<Seq<char>>,
    from_end: bool,
    r: CommandReply,
) -> bool {
    let n = n_flag_spec(args, 10).0;
    match n_flag_spec(args, 10).1 {
        None => c1 == c0 && prints(
            r,
            red_line(
                if from_end {
                    "Usage: tail [-n <count>] <path>"@
                } else {
                    "Usage: head [-n <count>] <path>"@
                },
            ),
        ),
        Some(q) => {
            let path = relative_spec(cwd, q);
            exists|res: Result<Vec<u8>, &'static str>|
                #[trigger] read_step(c0, c1, path, res) && prints(
                    r,
                    match res {
                        Ok(d) => lines_body(d@, n, from_end),
                        Err(e) => red_line(
                            (if from_end {
                                "[VFS ERR] tail: "@
                            } else {
                                "[VFS ERR] head: "@
                            }) + e@,
                        ),
                    },
                )
        },
    }
}

/// What `wc` shows of a file's bytes.
pub open spec fn wc_body(d: Seq<u8>, path: Seq<char>) -> Seq<char> {
    if valid_utf8(d) {
        let t = decode_utf8(d);
        "  lines: "@ + dec(text_lines(t).len()) + "  words: "@ + dec(words(t).len()) + "  bytes: "@ + dec(d.len())
            + "  "@ + path + "\n"@
    } else {
        "  (binary)  bytes: "@ + dec(d.len()) + "  "@ + path + "\n"@
    }
}

/// What `wc path` does.
pub open spec fn wc_done(c0: SystemCore, c1: SystemCore, cwd: Seq<char>, args: Seq<Seq<char>>, r: CommandReply) -> bool {
    if args.len() == 0 {
        c1 == c0 && prints(r, red_line("Usage: wc <path>"@))
    } else {
        let path = relative_spec(cwd, args[0]);
        exists|res: Result<Vec<u8>, &'static str>|
            #[trigger] read_step(c0, c1, path, res) && prints(
                r,
                match res {
                    Ok(d) => wc_body(d@, path),
                    Err(e) => red_line("[VFS ERR] wc: "@ + e@),
                },
            )
    }
}

/// `n` in decimal as a string.
fn dec_string(n: usize) -> (s: String)
    ensures
        s@ == dec(n as nat),
{
    fmt_dec(n)
}

/// The lines of `ls`, each followed by a line break.
fn each_line_string(ls: &Vec<String>) -> (r: String)
    ensures
        r@ == each_line(ls.deep_view()),
{
    let mut r = String::new();
    let mut i: usize = 0;
    while i < ls.len()
        invariant
            i <= ls@.len(),
            r@ == each_line(ls.deep_view().take(i as int)),
        decreases ls@.len() - i,
    {
        r.append(ls[i].as_str());
        r.append("\n");
        proof {
            let t = ls.deep_view().take(i + 1);
            assert(t.drop_last() =~= ls.deep_view().take(i as int));
            assert(t.last() == ls@[i as int]@);
        }
        i = i + 1;
    }
    assert(ls.deep_view().take(ls@.len() as int) =~= ls.deep_view());
    r
}

/// The bytes of `d` in hexadecimal, sixteen to a line.
fn hex_dump_string(d: &[u8]) -> (r: String)
    ensures
        r@ == hex_dump(d@, d@.len()),
{
    let mut r = String::new();
    let mut i: usize = 0;
    while i < d.len()
        invariant
            i <= d@.len(),
            r@ == hex_dump(d@, i as nat),
        decreases d@.len() - i,
    {
        let b = d[i];
        r.append(digit_str((b / 16) as usize));
        r.append(digit_str((b % 16) as usize));
        r.append(" ");
        if (i + 1) % 16 == 0 || i + 1 == d.len() {
            r.append("\n");
        } else {
            assert(r@ + Seq::<char>::empty() =~= r@);
        }
        proof {
            assert(r@ =~= hex_dump(d@, (i + 1) as nat));
        }
        i = i + 1;
    }
    r
}

/// What `cat` shows of a file's bytes; see `cat_body`.
fn cat_body_string(d: &Vec<u8>) -> (r: String)
    ensures
        r@ == cat_body(d@),
{
    match text_from_utf8(d.as_slice()) {
        Some(t) => {
            let mut r = String::from_str(t);
            let n = t.unicode_len();
            if n > 0 && t.get_char(n - 1) == '\n' {
                assert(r@ + Seq::<char>::empty() =~= r@);
            } else {
                r.append("\n");
            }
            r
        },
        None => hex_dump_string(d.as_slice()),
    }
}

/// What `head` or `tail` shows of a file's bytes; see `lines_body`.
fn lines_body_string(d: &Vec<u8>, n: usize, from_end: bool) -> (r: String)
    ensures
        r@ == lines_body(d@, n, from_end),
{
    match text_from_utf8(d.as_slice()) {
        Some(t) => {
            let ls = if from_end {
                tail_lines(t, n)
            } else {
                head_lines(t, n)
            };
            each_line_string(&ls)
        },
        None => {
            let mut r = String::from_str("(binary file \u{2014} ");
            r.append(dec_string(d.len()).as_str());
            r.append(" bytes)\n");
            r
        },
    }
}

/// What `wc` shows of a file's bytes; see `wc_body`.
fn wc_body_string(d: &Vec<u8>, path: &str) -> (r: String)
    ensures
        r@ == wc_body(d@, path@),
{
    match text_from_utf8(d.as_slice()) {
        Some(t) => {
            let (lines, ws) = text_counts(t);
            let mut r = String::from_str("  lines: ");
            r.append(dec_string(lines).as_str());
            r.append("  words: ");
            r.append(dec_string(ws).as_str());
            r.append("  bytes: ");
            r.append(dec_string(d.len()).as_str());
            r.append("  ");
            r.append(path);
            r.append("\n");
            r
        },
        None => {
            let mut r = String::from_str("  (binary)  bytes: ");
            r.append(dec_string(d.len()).as_str());
            r.append("  ");
            r.append(path);
            r.append("\n");
            r
        },
    }
}

impl SystemCore {
    /// `cat path`; see `cat_done`.
    fn cmd_cat(&mut self, cwd: &str, args: &Vec<String>) -> (r: CommandReply)
        requires
            old(self).wf(),
        ensures
            final(self).wf(),
            cat_done(*old(self), *final(self), cwd@, args.deep_view(), r),
    {
        if args.len() == 0 {
            return say(red_text("Usage: cat <file_path>"));
        }
        assert(args.deep_view()[0] == args@[0]@);
        let path = resolve_relative_path(cwd, args[0].as_str());
        let res = self.vfs.read_file(path.as_str(), &mut self.allocator);
        let reply = match &res {
            Ok(data) => {
                let mut out = String::from_str("--- ");
                out.append(path.as_str());
                out.append(" ---\n");
                out.append(cat_body_string(data).as_str());
                out.append("------------------\n");
                say(out)
            },
            Err(e) => {
                let mut msg = String::from_str("[VFS ERR] Failed to read file ");
                msg.append(path.as_str());
                msg.append(": ");
                msg.append(e);
                say(red_text(msg.as_str()))
            },
        };
        assert(read_step(*old(self), *self, path@, res));
        reply
    }

    /// `head [-n count] path` or `tail`; see `lines_done`.
    fn cmd_lines(&mut self, cwd: &str, args: &Vec<String>, from_end: bool) -> (r: CommandReply)
        requires
            old(self).wf(),
        ensures
            final(self).wf(),
            lines_done(*old(self), *final(self), cwd@, args.deep_view(), from_end, r),
    {
        let (n, p) = parse_n_flag(args, 10);
        let ghost nf = n_flag_spec(args.deep_view(), 10);
        assert(nf.0 == n);
        match p {
            None => {
                assert(nf.1 is None);
                let r = say(red_text(if from_end { "Usage: tail [-n <count>] <path>" } else { "Usage: head [-n <count>] <path>" }));
                assert(lines_done(*old(self), *self, cwd@, args.deep_view(), from_end, r));
                r
            },
            Some(q) => {
                assert(nf.1 == Some(q@));
                let path = resolve_relative_path(cwd, q.as_str());
                let res = self.vfs.read_file(path.as_str(), &mut self.allocator);
                let reply = match &res {
                    Ok(data) => say(lines_body_string(data, n, from_end)),
                    Err(e) => {
                        let msg = String::from_str(if from_end { "[VFS ERR] tail: " } else { "[VFS ERR] head: " }).concat(e);
                        say(red_text(msg.as_str()))
                    },
                };
                assert(read_step(*old(self), *self, path@, res));
                assert(path@ == relative_spec(cwd@, q@));
                assert(prints(
                    reply,
                    match res {
                        Ok(d) => lines_body(d@, n, from_end),
                        Err(e) => red_line(
                            (if from_end {
                                "[VFS ERR] tail: "@
                            } else {
                                "[VFS ERR] head: "@
                            }) + e@,
                        ),
                    },
                ));
                assert(read_step(*old(self), *self, relative_spec(cwd@, n_flag_spec(args.deep_view(), 10).1->0), res));
                assert(lines_done(*old(self), *self, cwd@, args.deep_view(), from_end, reply));
                reply
            },
        }
    }

    /// `wc path`; see `wc_done`.
    fn cmd_wc(&mut self, cwd: &str, args: &Vec<String>) -> (r: CommandReply)
        requires
            old(self).wf(),
        ensures
            final(self).wf(),
            wc_done(*old(self), *final(self), cwd@, args.deep_view(), r),
    {
        if args.len() == 0 {
            return say(red_text("Usage: wc <path>"));
        }
        assert(args.deep_view()[0] == args@[0]@);
        let path = resolve_relative_path(cwd, args[0].as_str());
        let res = self.vfs.read_file(path.as_str(), &mut self.allocator);
        let reply = match &res {
            Ok(data) => say(wc_body_string(data, path.as_str())),
            Err(e) => {
                let msg = String::from_str("[VFS ERR] wc: ").concat(e);
                say(red_text(msg.as_str()))
            },
        };
        assert(read_step(*old(self), *self, path@, res));
        reply
    }
}

/// What `write path text...` does: replaces the file's contents with the
/// words after the path, joined by spaces.
pub open spec fn write_done(c0: SystemCore, c1: SystemCore, cwd: Seq<char>, args: Seq<Seq<char>>, r: CommandReply) -> bool {
    if args.len() < 2 {
        c1 == c0 && prints(r, red_line("Usage: write <path> <text_content...>"@))
    } else {
        let path = relative_spec(cwd, args[0]);
        let data = encode_utf8(joined(args.skip(1)));
        exists|res: Result<(), &'static str>|
            #[trigger] c0.vfs.write_outcome(c1.vfs, c0.allocator, c1.allocator, path, data, 1000, res) && only_storage(
                c0,
                c1,
            ) && prints(
                r,
                match res {
                    Ok(_) => "[VFS] Wrote "@ + dec(data.len()) + " bytes to file: "@ + path + "\n"@,
                    Err(e) => red_line("[VFS ERR] write failed: "@ + e@),
                },
            )
    }
}

/// Whether `w` is the recursive flag of `rm`.
pub open spec fn is_rf(w: Seq<char>) -> bool {
    w == "-rf"@
}

/// What `rm [-rf] path` does.
pub open spec fn rm_done(c0: SystemCore, c1: SystemCore, cwd: Seq<char>, args: Seq<Seq<char>>, r: CommandReply) -> bool {
    if args.len() == 0 {
        c1 == c0 && prints(r, red_line("Usage: rm [-rf] <path>"@))
    } else if is_rf(args[0]) && args.len() < 2 {
        c1 == c0 && prints(r, red_line("Usage: rm -rf <path>"@))
    } else {
        let recursive = is_rf(args[0]);
        removed(
            c0,
            c1,
            relative_spec(
                cwd,
                if recursive {
                    args[1]
                } else {
                    args[0]
                },
            ),
            recursive,
            r,
        )
    }
}

/// What removing the node at `path` does, and what is printed.
pub open spec fn removed(c0: SystemCore, c1: SystemCore, path: Seq<char>, recursive: bool, r: CommandReply) -> bool {
    exists|res: Result<(), &'static str>|
        #[trigger] c0.vfs.remove_outcome(c1.vfs, c0.allocator, c1.allocator, path, recursive, res) && only_storage(
            c0,
            c1,
        ) && prints(
            r,
            match res {
                Ok(_) => "[VFS] Removed node: "@ + path + "\n"@,
                Err(e) => red_line("[VFS ERR] remove failed: "@ + e@),
            },
        )
}

/// What `cd [path]` does to the working directory `cwd0`: moves to the
/// directory (by default the root), or says why not.
pub open spec fn cd_done(v: VirtualFileSystem, cwd0: Seq<char>, cwd1: Seq<char>, args: Seq<Seq<char>>, r: CommandReply) -> bool {
    let target = if args.len() == 0 {
        "/"@
    } else {
        args[0]
    };
    let new_path = relative_spec(cwd0, target);
    match v.resolve_spec(new_path) {
        Ok(idx) => if v.inodes@[idx as int].inode_type is Directory {
            cwd1 == new_path && prints(r, Seq::empty())
        } else {
            cwd1 == cwd0 && prints(r, red_line("cd: '"@ + target + "' is not a directory"@))
        },
        Err(_) => cwd1 == cwd0 && prints(r, red_line("cd: '"@ + target + "': No such file or directory"@)),
    }
}

/// What `cp src dst` does: copies the file to the parent and name of
/// `dst`, taken as written.
pub open spec fn copy_done(c0: SystemCore, c1: SystemCore, cwd: Seq<char>, args: Seq<Seq<char>>, r: CommandReply) -> bool {
    if args.len() < 2 {
        c1 == c0 && prints(r, red_line("Usage: cp <src> <dst>"@))
    } else {
        let src = relative_spec(cwd, args[0]);
        let dst = split_path_spec(args[1]);
        exists|res: Result<(), &'static str>|
            #[trigger] c0.vfs.copy_outcome(c1.vfs, c0.allocator, c1.allocator, src, dst.0, dst.1, 1000, res)
                && only_storage(c0, c1) && prints(
                r,
                match res {
                    Ok(_) => "[VFS] Copied '"@ + src + "' -> '"@ + args[1] + "'\n"@,
                    Err(e) => red_line("[VFS ERR] cp failed: "@ + e@),
                },
            )
    }
}

/// What `mv src dst` does: moves the node to the parent and name of `dst`,
/// taken as written.
pub open spec fn move_done(c0: SystemCore, c1: SystemCore, cwd: Seq<char>, args: Seq<Seq<char>>, r: CommandReply) -> bool {
    if args.len() < 2 {
        c1 == c0 && prints(r, red_line("Usage: mv <src> <dst>"@))
    } else {
        let src = relative_spec(cwd, args[0]);
        let dst = split_path_spec(args[1]);
        exists|res: Result<(), &'static str>|
            #[trigger] c0.vfs.rename_outcome(c1.vfs, src, dst.0, dst.1, res) && only_vfs(c0, c1) && prints(
                r,
                match res {
                    Ok(_) => "[VFS] Moved '"@ + src + "' -> '"@ + args[1] + "'\n"@,
                    Err(e) => red_line("[VFS ERR] mv failed: "@ + e@),
                },
            )
    }
}

impl SystemCore {
    /// `write path text...`; see `write_done`.
    fn cmd_write(&mut self, cwd: &str, args: &Vec<String>) -> (r: CommandReply)
        requires
            old(self).wf(),
        ensures
            final(self).wf(),
            write_done(*old(self), *final(self), cwd@, args.deep_view(), r),
    {
        if args.len() < 2 {
            return say(red_text("Usage: write <path> <text_content...>"));
        }
        assert(args.deep_view()[0] == args@[0]@);
        let path = resolve_relative_path(cwd, args[0].as_str());
        let text = join_words(args, 1);
        let bytes = text.as_str().as_bytes();
        let res = self.vfs.write_file(path.as_str(), bytes, &mut self.allocator, 1000);
        let reply = match res {
            Ok(_) => {
                let mut out = String::from_str("[VFS] Wrote ");
                out.append(dec_string(bytes.len()).as_str());
                out.append(" bytes to file: ");
                out.append(path.as_str());
                out.append("\n");
                say(out)
            },
            Err(e) => {
                let msg = String::from_str("[VFS ERR] write failed: ").concat(e);
                say(red_text(msg.as_str()))
            },
        };
        let ghost data = encode_utf8(joined(args.deep_view().skip(1)));
        assert(old(self).vfs.write_outcome(self.vfs, old(self).allocator, self.allocator, path@, data, 1000, res));
        reply
    }

    /// `rm [-rf] path`; see `rm_done`.
    fn cmd_rm(&mut self, cwd: &str, args: &Vec<String>) -> (r: CommandReply)
        requires
            old(self).wf(),
        ensures
            final(self).wf(),
            rm_done(*old(self), *final(self), cwd@, args.deep_view(), r),
    {
        proof {
            reveal_strlit("-rf");
        }
        if args.len() == 0 {
            return say(red_text("Usage: rm [-rf] <path>"));
        }
        assert(args.deep_view()[0] == args@[0]@);
        let recursive = args[0] == String::from_str("-rf");
        if recursive && args.len() < 2 {
            return say(red_text("Usage: rm -rf <path>"));
        }
        let raw: &str = if recursive {
            assert(args.deep_view()[1] == args@[1]@);
            args[1].as_str()
        } else {
            args[0].as_str()
        };
        let path = resolve_relative_path(cwd, raw);
        let res = self.vfs.remove_node(path.as_str(), recursive, &mut self.allocator);
        let reply = match res {
            Ok(_) => {
                let mut out = String::from_str("[VFS] Removed node: ");
                out.append(path.as_str());
                out.append("\n");
                say(out)
            },
            Err(e) => {
                let msg = String::from_str("[VFS ERR] remove failed: ").concat(e);
                say(red_text(msg.as_str()))
            },
        };
        let ghost rs = is_rf(args.deep_view()[0]);
        let ghost sp = relative_spec(
            cwd@,
            if rs {
                args.deep_view()[1]
            } else {
                args.deep_view()[0]
            },
        );
        assert(recursive == is_rf(args.deep_view()[0]));
        assert(path@ == sp);
        assert(old(self).vfs.remove_outcome(self.vfs, old(self).allocator, self.allocator, sp, rs, res));
        assert(only_storage(*old(self), *self));
        assert(prints(
            reply,
            match res {
                Ok(_) => "[VFS] Removed node: "@ + sp + "\n"@,
                Err(e) => red_line("[VFS ERR] remove failed: "@ + e@),
            },
        ));
        assert(removed(*old(self), *self, sp, rs, reply));
        reply
    }

    /// `cp src dst`; see `copy_done`.
    fn cmd_cp(&mut self, cwd: &str, args: &Vec<String>) -> (r: CommandReply)
        requires
            old(self).wf(),
        ensures
            final(self).wf(),
            copy_done(*old(self), *final(self), cwd@, args.deep_view(), r),
    {
        if args.len() < 2 {
            return say(red_text("Usage: cp <src> <dst>"));
        }
        assert(args.deep_view()[0] == args@[0]@);
        assert(args.deep_view()[1] == args@[1]@);
        let src = resolve_relative_path(cwd, args[0].as_str());
        let (dst_parent, dst_name) = split_parent_child(args[1].as_str());
        let res = self.vfs.copy_file(
            src.as_str(),
            dst_parent.as_str(),
            dst_name.as_str(),
            &mut self.allocator,
            1000,
        );
        let reply = match res {
            Ok(_) => {
                let mut out = String::from_str("[VFS] Copied '");
                out.append(src.as_str());
                out.append("' -> '");
                out.append(args[1].as_str());
                out.append("'\n");
                say(out)
            },
            Err(e) => {
                let msg = String::from_str("[VFS ERR] cp failed: ").concat(e);
                say(red_text(msg.as_str()))
            },
        };
        let ghost dst = split_path_spec(args.deep_view()[1]);
        assert(old(self).vfs.copy_outcome(self.vfs, old(self).allocator, self.allocator, src@, dst.0, dst.1, 1000, res));
        reply
    }

    /// `mv src dst`; see `move_done`.
    fn cmd_mv(&mut self, cwd: &str, args: &Vec<String>) -> (r: CommandReply)
        requires
            old(self).wf(),
        ensures
            final(self).wf(),
            move_done(*old(self), *final(self), cwd@, args.deep_view(), r),
    {
        if args.len() < 2 {
            return say(red_text("Usage: mv <src> <dst>"));
        }
        assert(args.deep_view()[0] == args@[0]@);
        assert(args.deep_view()[1] == args@[1]@);
        let src = resolve_relative_path(cwd, args[0].as_str());
        let (dst_parent, dst_name) = split_parent_child(args[1].as_str());
        let res = self.vfs.rename_node(src.as_str(), dst_parent.as_str(), dst_name.as_str());
        let reply = match res {
            Ok(_) => {
                let mut out = String::from_str("[VFS] Moved '");
                out.append(src.as_str());
                out.append("' -> '");
                out.append(args[1].as_str());
                out.append("'\n");
                say(out)
            },
            Err(e) => {
                let msg = String::from_str("[VFS ERR] mv failed: ").concat(e);
                say(red_text(msg.as_str()))
            },
        };
        let ghost dst = split_path_spec(args.deep_view()[1]);
        assert(old(self).vfs.rename_outcome(self.vfs, src@, dst.0, dst.1, res));
        reply
    }
}

/// `cd [path]`; see `cd_done`.
fn cmd_cd(v: &VirtualFileSystem, cwd: &mut String, args: &Vec<String>) -> (r: CommandReply)
    requires
        v.wf(),
    ensures
        cd_done(*v, old(cwd)@, final(cwd)@, args.deep_view(), r),
{
    let target: &str = if args.len() == 0 {
        "/"
    } else {
        assert(args.deep_view()[0] == args@[0]@);
        args[0].as_str()
    };
    let new_path = resolve_relative_path(cwd.as_str(), target);
    match v.resolve_path(new_path.as_str()) {
        Ok(idx) => {
            if v.inodes[idx].is_directory() {
                *cwd = new_path;
                say(String::new())
            } else {
                let mut msg = String::from_str("cd: '");
                msg.append(target);
                msg.append("' is not a directory");
                say(red_text(msg.as_str()))
            }
        },
        Err(_) => {
            let mut msg = String::from_str("cd: '");
            msg.append(target);
            msg.append("': No such file or directory");
            say(red_text(msg.as_str()))
        },
    }
}

/// What `find name` prints: the paths whose name contains `name`, or
/// that nothing matched.
pub open spec fn find_text(v: VirtualFileSystem, args: Seq<Seq<char>>) -> Seq<char> {
    if args.len() == 0 {
        red_line("Usage: find <name>"@)
    } else {
        let found = found_paths(v, 0, "/"@, args[0], v.inodes@.len());
        if found.len() == 0 {
            "(no match found for '"@ + args[0] + "')\n"@
        } else {
            each_line(found)
        }
    }
}

/// What `vfs` prints: the whole tree between rules.
pub open spec fn tree_text(v: VirtualFileSystem) -> Seq<char> {
    dash_line() + "VFS TREE STRUCTURE\n"@ + dash_line() + each_line(tree_lines(v, 0, 0, v.inodes@.len())) + dash_line()
}

/// The reply to `usermode`: a banner, the demonstration, a rule.
pub open spec fn usermode_reply(r: CommandReply) -> bool {
    &&& r.text@ == dash_line() + "LAUNCHING RING 3 USER SPACE & SYSCALL DEMONSTRATION\n"@ + dash_line()
    &&& r.action is UserDemo
    &&& r.after@ == dash_line()
}

/// What `run path` does: loads the program from the file and runs it
/// between a banner and a rule, or says why it could not be loaded.
pub open spec fn run_done(c0: SystemCore, c1: SystemCore, cwd: Seq<char>, args: Seq<Seq<char>>, r: CommandReply) -> bool {
    if args.len() == 0 {
        c1 == c0 && prints(r, red_line("Usage: run <path_to_binary.bin>"@))
    } else {
        loaded(c0, c1, relative_spec(cwd, args[0]), r)
    }
}

/// Reading the program at `path` and what follows.
pub open spec fn loaded(c0: SystemCore, c1: SystemCore, path: Seq<char>, r: CommandReply) -> bool {
    exists|res: Result<Vec<u8>, &'static str>|
        #[trigger] read_step(c0, c1, path, res) && match res {
            Ok(d) => {
                &&& r.text@ == dash_line() + "LAUNCHING RING 3 PROCESS FROM VFS: "@ + path + "\n"@ + dash_line()
                &&& r.action matches ShellAction::RunProgram(p) && p@ == d@
                &&& r.after@ == dash_line()
            },
            Err(e) => prints(r, red_line("[RUN ERR] Failed to load program '"@ + path + "': "@ + e@)),
        }
}

/// The index of the first allocated entry of `map`.
pub open spec fn first_owned(map: Seq<Option<u32>>) -> Option<usize>
    decreases map.len(),
{
    if map.len() == 0 {
        None
    } else {
        match first_owned(map.drop_last()) {
            Some(i) => Some(i),
            None => if map.last() is Some {
                Some((map.len() - 1) as usize)
            } else {
                None
            },
        }
    }
}

/// `c1` is `c0` after flipping bit 3 of word 8 of frame `f`, with the
/// result `res`.
pub open spec fn injected(c0: SystemCore, c1: SystemCore, f: usize, res: Result<(), &'static str>) -> bool {
    &&& c1.wf()
    &&& flip_outcome(c0.allocator, c1.allocator, f, 8, 3, res)
    &&& c1.vfs == c0.vfs
    &&& c1.counters() == c0.counters()
    &&& c1.dispatcher.processes == c0.dispatcher.processes
    &&& res is Ok ==> c1.dispatcher.logs() == log_after(c0.dispatcher.logs(), flip_msg(3, f, 8))
    &&& res is Err ==> c1.dispatcher == c0.dispatcher
}

/// What `inject-flip` does: flips a bit in the first allocated frame.
pub open spec fn inject_done(c0: SystemCore, c1: SystemCore, r: CommandReply) -> bool {
    match first_owned(c0.allocator.allocation_map@) {
        None => c1 == c0 && prints(r, red_line("[INJECTOR ERR] No allocated memory frames found to target!"@)),
        Some(f) => flipped_in(c0, c1, f, r),
    }
}

/// Flipping a bit in frame `f` and what is printed.
pub open spec fn flipped_in(c0: SystemCore, c1: SystemCore, f: usize, r: CommandReply) -> bool {
    exists|res: Result<(), &'static str>|
        #[trigger] injected(c0, c1, f, res) && prints(
            r,
            "[INJECTOR] Targeting frame "@ + dec(f as nat) + " (allocated to process)...\n"@ + match res {
                Ok(_) => "\x1B[38;5;220m[INJECTOR OK] Injected synthetic bit flip into physical frame "@ + dec(
                    f as nat,
                ) + " offset 8, bit 3!\x1B[0m\n"@ + "[INJECTOR] Scrubber will auto-heal it on the next scheduler tick.\n"@,
                Err(e) => red_line("[INJECTOR ERR] Failed to inject: "@ + e@),
            },
        )
}

/// What `loadkeys layout` does to the keyboard.
pub open spec fn loadkeys_done(k0: KeyboardState, k1: KeyboardState, args: Seq<Seq<char>>, r: CommandReply) -> bool {
    if args.len() == 0 {
        k1 == k0 && prints(r, "Usage: loadkeys <layout> (e.g. us, trq)\n"@)
    } else if args[0] == "us"@ {
        k1.active_layout() == KeyboardLayout::Us && k1.shift() == k0.shift() && prints(
            r,
            "Keyboard layout switched to US.\n"@,
        )
    } else if args[0] == "trq"@ {
        k1.active_layout() == KeyboardLayout::Trq && k1.shift() == k0.shift() && prints(
            r,
            "Keyboard layout switched to Turkish Q (TRQ).\n"@,
        )
    } else {
        k1 == k0 && prints(r, "Unknown keyboard layout: '"@ + args[0] + "'. Supported: us, trq\n"@)
    }
}

/// Whether `w` spells `lit`.
fn word_is(w: &String, lit: &str) -> (b: bool)
    ensures
        b == (w@ == lit@),
{
    *w == String::from_str(lit)
}

/// The index of the first allocated entry of `map`.
fn first_allocated(map: &Vec<Option<u32>>) -> (r: Option<usize>)
    ensures
        r == first_owned(map@),
{
    let mut i: usize = 0;
    while i < map.len()
        invariant
            i <= map@.len(),
            first_owned(map@.take(i as int)) is None,
        decreases map@.len() - i,
    {
        proof {
            assert(map@.take(i + 1).drop_last() =~= map@.take(i as int));
        }
        if map[i].is_some() {
            proof {
                lemma_first_owned_prefix(map@, (i + 1) as nat);
            }
            return Some(i);
        }
        i = i + 1;
    }
    assert(map@.take(map@.len() as int) =~= map@);
    None
}

/// Once a prefix of the map has an allocated entry, the first one is in it.
proof fn lemma_first_owned_prefix(map: Seq<Option<u32>>, n: nat)
    requires
        n <= map.len(),
        first_owned(map.take(n as int)) is Some,
    ensures
        first_owned(map) == first_owned(map.take(n as int)),
    decreases map.len() - n,
{
    if n < map.len() {
        assert(map.take(n + 1 as int).drop_last() =~= map.take(n as int));
        lemma_first_owned_prefix(map, n + 1);
    } else {
        assert(map.take(n as int) =~= map);
    }
}

/// `find name`; see `find_text`.
fn cmd_find(v: &VirtualFileSystem, args: &Vec<String>) -> (r: CommandReply)
    ensures
        prints(r, find_text(*v, args.deep_view())),
{
    if args.len() == 0 {
        return say(red_text("Usage: find <name>"));
    }
    assert(args.deep_view()[0] == args@[0]@);
    let mut results: Vec<String> = Vec::new();
    find_in_vfs(v, 0, "/", args[0].as_str(), &mut results);
    proof {
        reveal_strlit("/");
        assert(texts(results@) =~= results.deep_view());
    }
    if results.len() == 0 {
        let mut out = String::from_str("(no match found for '");
        out.append(args[0].as_str());
        out.append("')\n");
        say(out)
    } else {
        say(each_line_string(&results))
    }
}

/// `vfs`; see `tree_text`.
fn cmd_tree(v: &VirtualFileSystem) -> (r: CommandReply)
    requires
        2 * v.inodes@.len() <= usize::MAX,
    ensures
        prints(r, tree_text(*v)),
{
    let dash = "------------------------------------------------------------\n";
    let lines = vfs_tree_lines(v, 0, 0);
    proof {
        assert(texts(lines@) =~= lines.deep_view());
    }
    let mut out = String::from_str(dash);
    out.append("VFS TREE STRUCTURE\n");
    out.append(dash);
    out.append(each_line_string(&lines).as_str());
    out.append(dash);
    say(out)
}

impl SystemCore {
    /// `run path`; see `run_done`.
    fn cmd_run(&mut self, cwd: &str, args: &Vec<String>) -> (r: CommandReply)
        requires
            old(self).wf(),
        ensures
            final(self).wf(),
            run_done(*old(self), *final(self), cwd@, args.deep_view(), r),
    {
        if args.len() == 0 {
            return say(red_text("Usage: run <path_to_binary.bin>"));
        }
        assert(args.deep_view()[0] == args@[0]@);
        let path = resolve_relative_path(cwd, args[0].as_str());
        let res = self.vfs.read_file(path.as_str(), &mut self.allocator);
        let ghost res0 = res;
        let dash = "------------------------------------------------------------\n";
        let reply = match res {
            Ok(data) => {
                let mut text = String::from_str(dash);
                text.append("LAUNCHING RING 3 PROCESS FROM VFS: ");
                text.append(path.as_str());
                text.append("\n");
                text.append(dash);
                CommandReply { text, action: ShellAction::RunProgram(data), after: String::from_str(dash) }
            },
            Err(e) => {
                let mut msg = String::from_str("[RUN ERR] Failed to load program '");
                msg.append(path.as_str());
                msg.append("': ");
                msg.append(e);
                say(red_text(msg.as_str()))
            },
        };
        assert(read_step(*old(self), *self, path@, res0));
        assert(loaded(*old(self), *self, path@, reply));
        reply
    }

    /// `inject-flip`; see `inject_done`.
    fn cmd_inject(&mut self) -> (r: CommandReply)
        requires
            old(self).wf(),
        ensures
            final(self).wf(),
            inject_done(*old(self), *final(self), r),
    {
        match first_allocated(&self.allocator.allocation_map) {
            None => say(red_text("[INJECTOR ERR] No allocated memory frames found to target!")),
            Some(frame_idx) => {
                let mut out = String::from_str("[INJECTOR] Targeting frame ");
                out.append(dec_string(frame_idx).as_str());
                out.append(" (allocated to process)...\n");
                let ghost prefix = out@;
                let res = self.inject_memory_flip(frame_idx, 8, 3);
                match res {
                    Ok(_) => {
                        out.append("\x1B[38;5;220m[INJECTOR OK] Injected synthetic bit flip into physical frame ");
                        out.append(dec_string(frame_idx).as_str());
                        out.append(" offset 8, bit 3!\x1B[0m\n");
                        out.append("[INJECTOR] Scrubber will auto-heal it on the next scheduler tick.\n");
                        assert(out@ =~= prefix + ("\x1B[38;5;220m[INJECTOR OK] Injected synthetic bit flip into physical frame "@
                            + dec(frame_idx as nat) + " offset 8, bit 3!\x1B[0m\n"@
                            + "[INJECTOR] Scrubber will auto-heal it on the next scheduler tick.\n"@));
                    },
                    Err(e) => {
                        let msg = String::from_str("[INJECTOR ERR] Failed to inject: ").concat(e);
                        out.append(red_text(msg.as_str()).as_str());
                        assert(out@ =~= prefix + red_line("[INJECTOR ERR] Failed to inject: "@ + e@));
                    },
                }
                let reply = say(out);
                assert(injected(*old(self), *self, frame_idx, res));
                assert(flipped_in(*old(self), *self, frame_idx, reply));
                reply
            },
        }
    }
}

/// `loadkeys layout`; see `loadkeys_done`.
fn cmd_loadkeys(keyboard: &mut KeyboardState, args: &Vec<String>) -> (r: CommandReply)
    ensures
        loadkeys_done(*old(keyboard), *final(keyboard), args.deep_view(), r),
{
    if args.len() == 0 {
        return say(String::from_str("Usage: loadkeys <layout> (e.g. us, trq)\n"));
    }
    assert(args.deep_view()[0] == args@[0]@);
    if word_is(&args[0], "us") {
        keyboard.set_layout(KeyboardLayout::Us);
        say(String::from_str("Keyboard layout switched to US.\n"))
    } else if word_is(&args[0], "trq") {
        keyboard.set_layout(KeyboardLayout::Trq);
        say(String::from_str("Keyboard layout switched to Turkish Q (TRQ).\n"))
    } else {
        let mut out = String::from_str("Unknown keyboard layout: '");
        out.append(args[0].as_str());
        out.append("'. Supported: us, trq\n");
        say(out)
    }
}

/// Whether command `cmd` may change the kernel state or run a program.
pub open spec fn is_storage_command(cmd: Seq<char>) -> bool {
    ||| cmd == "usermode"@
    ||| cmd == "run"@
    ||| cmd == "inject-flip"@
    ||| cmd == "mkdir"@
    ||| cmd == "touch"@
    ||| cmd == "write"@
    ||| cmd == "rm"@
    ||| cmd == "cat"@
    ||| cmd == "cp"@
    ||| cmd == "mv"@
    ||| cmd == "head"@
    ||| cmd == "tail"@
    ||| cmd == "wc"@
}

/// What a command that leaves the kernel state alone prints.
pub open spec fn info_text(
    cmd: Seq<char>,
    args: Seq<Seq<char>>,
    c: SystemCore,
    cwd: Seq<char>,
    history: Seq<Seq<char>>,
    ticks: usize,
) -> Seq<char> {
    if cmd == "help"@ {
        help_text()
    } else if cmd == "status"@ {
        status_text(c)
    } else if cmd == "tasks"@ {
        tasks_text(c.dispatcher.processes@)
    } else if cmd == "vfs"@ {
        tree_text(c.vfs)
    } else if cmd == "ls"@ {
        ls_text(
            c.vfs,
            relative_spec(
                cwd,
                if args.len() == 0 {
                    cwd
                } else {
                    args[0]
                },
            ),
        )
    } else if cmd == "pwd"@ {
        cwd + "\n"@
    } else if cmd == "echo"@ {
        joined(args) + "\n"@
    } else if cmd == "uname"@ {
        uname_text()
    } else if cmd == "uptime"@ {
        uptime_text(ticks as nat)
    } else if cmd == "free"@ {
        free_text(c)
    } else if cmd == "whoami"@ {
        "root\n"@
    } else if cmd == "hostname"@ {
        "rustanium\n"@
    } else if cmd == "history"@ {
        history_text(history)
    } else if cmd == "find"@ {
        find_text(c.vfs, args)
    } else if cmd == "clear"@ {
        "\x1B[2J\x1B[H"@
    } else {
        red_line("Unknown command: '"@ + cmd + "'. Type 'help' for options."@)
    }
}

/// What a command that may change the kernel state does.
pub open spec fn storage_done(
    cmd: Seq<char>,
    args: Seq<Seq<char>>,
    c0: SystemCore,
    c1: SystemCore,
    cwd: Seq<char>,
    r: CommandReply,
) -> bool {
    if cmd == "usermode"@ {
        c1 == c0 && usermode_reply(r)
    } else if cmd == "run"@ {
        run_done(c0, c1, cwd, args, r)
    } else if cmd == "inject-flip"@ {
        inject_done(c0, c1, r)
    } else if cmd == "mkdir"@ {
        create_done(c0, c1, cwd, args, true, r)
    } else if cmd == "touch"@ {
        create_done(c0, c1, cwd, args, false, r)
    } else if cmd == "write"@ {
        write_done(c0, c1, cwd, args, r)
    } else if cmd == "rm"@ {
        rm_done(c0, c1, cwd, args, r)
    } else if cmd == "cat"@ {
        cat_done(c0, c1, cwd, args, r)
    } else if cmd == "cp"@ {
        copy_done(c0, c1, cwd, args, r)
    } else if cmd == "mv"@ {
        move_done(c0, c1, cwd, args, r)
    } else if cmd == "head"@ {
        lines_done(c0, c1, cwd, args, false, r)
    } else if cmd == "tail"@ {
        lines_done(c0, c1, cwd, args, true, r)
    } else {
        wc_done(c0, c1, cwd, args, r)
    }
}

/// What the command line `line` does: its first word names the command,
/// the others are its arguments; a blank line does nothing.
pub open spec fn command_done(
    line: Seq<char>,
    c0: SystemCore,
    c1: SystemCore,
    cwd0: Seq<char>,
    cwd1: Seq<char>,
    history: Seq<Seq<char>>,
    k0: KeyboardState,
    k1: KeyboardState,
    ticks: usize,
    r: CommandReply,
) -> bool {
    let ws = words(line);
    if ws.len() == 0 {
        c1 == c0 && cwd1 == cwd0 && k1 == k0 && prints(r, Seq::empty())
    } else {
        let cmd = ws[0];
        let args = ws.drop_first();
        if cmd == "loadkeys"@ {
            c1 == c0 && cwd1 == cwd0 && loadkeys_done(k0, k1, args, r)
        } else if cmd == "cd"@ {
            c1 == c0 && k1 == k0 && cd_done(c0.vfs, cwd0, cwd1, args, r)
        } else {
            cwd1 == cwd0 && k1 == k0 && if is_storage_command(cmd) {
                storage_done(cmd, args, c0, c1, cwd0, r)
            } else {
                c1 == c0 && prints(r, info_text(cmd, args, c0, cwd0, history, ticks))
            }
        }
    }
}

/// The words of `ws` after the first.
fn rest_words(ws: &Vec<String>) -> (r: Vec<String>)
    requires
        ws@.len() > 0,
    ensures
        r.deep_view() == ws.deep_view().drop_first(),
{
    let mut r: Vec<String> = Vec::new();
    let mut i: usize = 1;
    while i < ws.len()
        invariant
            1 <= i <= ws@.len(),
            r.deep_view() == ws.deep_view().subrange(1, i as int),
        decreases ws@.len() - i,
    {
        let w = ws[i].clone();
        let ghost before = r.deep_view();
        r.push(w);
        proof {
            assert(r.deep_view() =~= before.push(ws@[i as int]@));
            assert(ws.deep_view()[i as int] == ws@[i as int]@);
            assert(r.deep_view() =~= ws.deep_view().subrange(1, i + 1));
        }
        i = i + 1;
    }
    assert(ws.deep_view().subrange(1, ws@.len() as int) =~= ws.deep_view().drop_first());
    r
}

/// The reply of a command that leaves the kernel state alone; see
/// `info_text`.
fn info_reply(
    cmd: &String,
    args: &Vec<String>,
    c: &SystemCore,
    cwd: &str,
    history: &Vec<String>,
    ticks: usize,
) -> (r: CommandReply)
    requires
        c.wf(),
        2 * c.vfs.inodes@.len() <= usize::MAX,
    ensures
        prints(r, info_text(cmd@, args.deep_view(), *c, cwd@, history.deep_view(), ticks)),
{
    if word_is(cmd, "help") {
        say(String::from_str("============================================================\n         AE RUSTANIUM BARE-METAL INTERACTIVE SHELL          \n============================================================\nFile System:\n  ls [path]        - List directory contents\n  pwd              - Print current working directory\n  cd <path>        - Change working directory (.. supported)\n  mkdir <path>     - Create a new directory\n  touch <path>     - Create an empty file\n  write <p> <txt>  - Write text into a file\n  cat <path>       - Display file content\n  head [-n] <path> - Show first N lines of a file (default 10)\n  tail [-n] <path> - Show last N lines of a file (default 10)\n  wc <path>        - Count lines, words, bytes in file\n  cp <src> <dst>   - Copy a file to a new location\n  mv <src> <dst>   - Move / rename a file or directory\n  rm [-rf] <path>  - Remove file or directory recursively\n  find <name>      - Search VFS tree for a name\n  vfs              - Print the full VFS tree\nSystem:\n  echo <text>      - Print text to the console\n  uname            - Print kernel and hardware identity\n  uptime           - Show system uptime in ticks and seconds\n  free             - Show heap and page allocator memory usage\n  whoami           - Print current user identity\n  hostname         - Print the system hostname\n  history          - List previously executed commands\n  loadkeys <lay>   - Switch keyboard layout (us, trq)\n  status           - Microkernel health & memory metrics\n  tasks            - List running microservices\n  usermode         - Launch Ring 3 User Space & Syscall demonstration\n  run <path>       - Dynamically load and run a Ring 3 VFS binary\n  inject-flip      - Inject synthetic radiation bit flip\n  clear            - Clear the console screen\n  help             - Show this help menu\n============================================================\n"))
    } else if word_is(cmd, "status") {
        say(status_report(c))
    } else if word_is(cmd, "tasks") {
        say(tasks_report(&c.dispatcher.processes))
    } else if word_is(cmd, "vfs") {
        cmd_tree(&c.vfs)
    } else if word_is(cmd, "ls") {
        c.cmd_ls(cwd, args)
    } else if word_is(cmd, "pwd") {
        let mut out = String::from_str(cwd);
        out.append("\n");
        say(out)
    } else if word_is(cmd, "echo") {
        let mut out = join_words(args, 0);
        proof {
            assert(args.deep_view().skip(0) =~= args.deep_view());
        }
        out.append("\n");
        say(out)
    } else if word_is(cmd, "uname") {
        say(String::from_str("AE-RUSTANIUM 0.1.0 bare-metal x86_64 UEFI/BIOS\nKernel: no_std Rust microkernel (nightly)\nArch:   x86_64  |  CPU: AMD/Intel 64-bit\nBoot:   UEFI GOP + Legacy BIOS MBR\n"))
    } else if word_is(cmd, "uptime") {
        say(uptime_report(ticks))
    } else if word_is(cmd, "free") {
        say(free_report(c))
    } else if word_is(cmd, "whoami") {
        say(String::from_str("root\n"))
    } else if word_is(cmd, "hostname") {
        say(String::from_str("rustanium\n"))
    } else if word_is(cmd, "history") {
        say(history_report(history))
    } else if word_is(cmd, "find") {
        cmd_find(&c.vfs, args)
    } else if word_is(cmd, "clear") {
        say(String::from_str("\x1B[2J\x1B[H"))
    } else {
        let mut msg = String::from_str("Unknown command: '");
        msg.append(cmd.as_str());
        msg.append("'. Type 'help' for options.");
        say(red_text(msg.as_str()))
    }
}

impl SystemCore {
    /// The reply of a command that may change the kernel state; see
    /// `storage_done`.
    fn storage_reply(&mut self, cmd: &String, args: &Vec<String>, cwd: &str) -> (r: CommandReply)
        requires
            old(self).wf(),
            is_storage_command(cmd@),
        ensures
            final(self).wf(),
            storage_done(cmd@, args.deep_view(), *old(self), *final(self), cwd@, r),
    {
        if word_is(cmd, "usermode") {
            let dash = "------------------------------------------------------------\n";
            let mut text = String::from_str(dash);
            text.append("LAUNCHING RING 3 USER SPACE & SYSCALL DEMONSTRATION\n");
            text.append(dash);
            CommandReply { text, action: ShellAction::UserDemo, after: String::from_str(dash) }
        } else if word_is(cmd, "run") {
            self.cmd_run(cwd, args)
        } else if word_is(cmd, "inject-flip") {
            self.cmd_inject()
        } else if word_is(cmd, "mkdir") {
            self.cmd_create(cwd, args, true)
        } else if word_is(cmd, "touch") {
            self.cmd_create(cwd, args, false)
        } else if word_is(cmd, "write") {
            self.cmd_write(cwd, args)
        } else if word_is(cmd, "rm") {
            self.cmd_rm(cwd, args)
        } else if word_is(cmd, "cat") {
            self.cmd_cat(cwd, args)
        } else if word_is(cmd, "cp") {
            self.cmd_cp(cwd, args)
        } else if word_is(cmd, "mv") {
            self.cmd_mv(cwd, args)
        } else if word_is(cmd, "head") {
            self.cmd_lines(cwd, args, false)
        } else if word_is(cmd, "tail") {
            self.cmd_lines(cwd, args, true)
        } else {
            self.cmd_wc(cwd, args)
        }
    }
}

/// Runs the command line `cmd_line` against the kernel state, the working
/// directory `cwd`, the command `history` and the `keyboard`, `ticks`
/// timer ticks after boot; see `command_done`. The reply holds what the
/// console prints, and the program it runs, if any.
pub fn handle_command(
    cmd_line: &str,
    core: &mut SystemCore,
    cwd: &mut String,
    history: &Vec<String>,
    keyboard: &mut KeyboardState,
    ticks: usize,
) -> (reply: CommandReply)
    requires
        old(core).wf(),
        2 * old(core).vfs.inodes@.len() <= usize::MAX,
    ensures
        final(core).wf(),
        command_done(
            cmd_line@,
            *old(core),
            *final(core),
            old(cwd)@,
            final(cwd)@,
            history.deep_view(),
            *old(keyboard),
            *final(keyboard),
            ticks,
            reply,
        ),
{
    let ws = split_words(cmd_line);
    if ws.len() == 0 {
        return say(String::new());
    }
    let cmd = &ws[0];
    assert(ws.deep_view()[0] == ws@[0]@);
    let args = rest_words(&ws);
    if word_is(cmd, "loadkeys") {
        cmd_loadkeys(keyboard, &args)
    } else if word_is(cmd, "cd") {
        cmd_cd(&core.vfs, cwd, &args)
    } else {
        let ghost c = cmd@;
        let storage = word_is(cmd, "usermode") || word_is(cmd, "run") || word_is(cmd, "inject-flip")
            || word_is(cmd, "mkdir") || word_is(cmd, "touch") || word_is(cmd, "write") || word_is(cmd, "rm")
            || word_is(cmd, "cat") || word_is(cmd, "cp") || word_is(cmd, "mv") || word_is(cmd, "head")
            || word_is(cmd, "tail") || word_is(cmd, "wc");
        assert(storage == is_storage_command(c));
        let cwd_now = cwd.clone();
        if storage {
            core.storage_reply(cmd, &args, cwd_now.as_str())
        } else {
            info_reply(cmd, &args, core, cwd_now.as_str(), history, ticks)
        }
    }
}

} // verus!
