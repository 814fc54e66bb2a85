use rustanium::kernel_core::SystemCore;
use rustanium::kernel_shell::{handle_command, CommandReply, ShellAction};
use rustanium::keyboard::KeyboardState;

const RED: &str = "\x1B[38;5;196m";
const RESET: &str = "\x1B[0m\n";
const RULE: &str = "------------------------------------------------------------\n";

struct Console {
    core: SystemCore,
    cwd: String,
    history: Vec<String>,
    keyboard: KeyboardState,
    ticks: usize,
}

impl Console {
    fn boot() -> Console {
        Console {
            core: SystemCore::bootstrap(),
            cwd: String::from("/"),
            history: Vec::new(),
            keyboard: KeyboardState::new(),
            ticks: 0,
        }
    }

    fn run(&mut self, line: &str) -> CommandReply {
        handle_command(line, &mut self.core, &mut self.cwd, &self.history, &mut self.keyboard, self.ticks)
    }

    fn say(&mut self, line: &str) -> String {
        let r = self.run(line);
        assert!(matches!(r.action, ShellAction::Nothing));
        assert_eq!(r.after, "");
        r.text
    }
}

fn red(s: &str) -> String {
    format!("{}{}{}", RED, s, RESET)
}

#[test]
fn blank_line_prints_nothing() {
    let mut c = Console::boot();
    assert_eq!(c.say("   "), "");
    assert_eq!(c.cwd, "/");
}

#[test]
fn help_lists_the_commands_between_rules() {
    let mut c = Console::boot();
    let text = c.say("help");
    assert!(text.starts_with("============================================================\n         AE RUSTANIUM BARE-METAL INTERACTIVE SHELL"));
    assert!(text.contains("  inject-flip      - Inject synthetic radiation bit flip\n"));
    assert!(text.ends_with("  help             - Show this help menu\n============================================================\n"));
    assert_eq!(text.lines().count(), 36);
}

#[test]
fn echo_pwd_and_identity() {
    let mut c = Console::boot();
    assert_eq!(c.say("echo  hello   orbit "), "hello orbit\n");
    assert_eq!(c.say("echo"), "\n");
    assert_eq!(c.say("pwd"), "/\n");
    assert_eq!(c.say("whoami"), "root\n");
    assert_eq!(c.say("hostname"), "rustanium\n");
    assert_eq!(c.say("clear"), "\x1B[2J\x1B[H");
    assert_eq!(
        c.say("uname"),
        "AE-RUSTANIUM 0.1.0 bare-metal x86_64 UEFI/BIOS\nKernel: no_std Rust microkernel (nightly)\nArch:   x86_64  |  CPU: AMD/Intel 64-bit\nBoot:   UEFI GOP + Legacy BIOS MBR\n"
    );
}

#[test]
fn unknown_command_is_reported_in_red() {
    let mut c = Console::boot();
    assert_eq!(c.say("launch-rocket now"), red("Unknown command: 'launch-rocket'. Type 'help' for options."));
}

#[test]
fn uptime_counts_fifty_ticks_a_second() {
    let mut c = Console::boot();
    c.ticks = 125;
    assert_eq!(
        c.say("uptime"),
        "Uptime: 125 ticks  (~2 seconds)\nLoad:   cooperative round-robin scheduler \u{2014} 3 threads active\n"
    );
}

#[test]
fn history_is_numbered_from_one() {
    let mut c = Console::boot();
    assert_eq!(c.say("history"), "(no command history yet)\n");
    c.history = vec![String::from("ls"), String::from("cd /data")];
    assert_eq!(c.say("history"), "   1  ls\n   2  cd /data\n");
}

#[test]
fn ls_lists_directories_in_colour() {
    let mut c = Console::boot();
    assert_eq!(
        c.say("ls"),
        "/:\n  \x1B[38;5;33msystem/\x1B[0m\n  \x1B[38;5;33mdata/\x1B[0m\n  \x1B[38;5;33mbin/\x1B[0m\n"
    );
    assert_eq!(c.say("ls /system"), "/system:\n  kernel.conf\n");
    assert_eq!(c.say("ls /bin"), "/bin:\n  (directory is empty)\n");
    assert_eq!(c.say("ls /system/kernel.conf"), "kernel.conf (file, 57 bytes)\n");
    assert_eq!(c.say("ls /nope"), red("[VFS ERR] Path resolve failed: File or directory not found in path lookup."));
}

#[test]
fn cd_moves_only_into_directories() {
    let mut c = Console::boot();
    assert_eq!(c.say("cd system"), "");
    assert_eq!(c.cwd, "/system");
    assert_eq!(c.say("cd kernel.conf"), red("cd: 'kernel.conf' is not a directory"));
    assert_eq!(c.cwd, "/system");
    assert_eq!(c.say("cd ../missing"), red("cd: '../missing': No such file or directory"));
    assert_eq!(c.say("cd .."), "");
    assert_eq!(c.cwd, "/");
    c.say("cd data");
    assert_eq!(c.say("cd"), "");
    assert_eq!(c.cwd, "/");
}

#[test]
fn mkdir_touch_write_cat_round_trip() {
    let mut c = Console::boot();
    assert_eq!(c.say("mkdir"), red("Usage: mkdir <path>"));
    assert_eq!(c.say("mkdir logs"), "[VFS] Created directory: /logs\n");
    assert_eq!(c.say("mkdir logs"), red("[VFS ERR] mkdir failed: Directory or file already exists with this name."));
    c.say("cd logs");
    assert_eq!(
        c.say("write notes.txt hello"),
        red("[VFS ERR] write failed: File or directory not found in path lookup.")
    );
    assert_eq!(c.say("touch notes.txt"), "[VFS] Created file: /logs/notes.txt\n");
    assert_eq!(c.say("write notes.txt hello   deep space"), "[VFS] Wrote 16 bytes to file: /logs/notes.txt\n");
    assert_eq!(c.say("cat notes.txt"), "--- /logs/notes.txt ---\nhello deep space\n------------------\n");
    assert_eq!(c.say("wc /logs/notes.txt"), "  lines: 1  words: 3  bytes: 16  /logs/notes.txt\n");
    assert_eq!(c.say("write notes.txt"), red("Usage: write <path> <text_content...>"));
    assert_eq!(c.say("cat"), red("Usage: cat <file_path>"));
    assert_eq!(
        c.say("cat /logs"),
        red("[VFS ERR] Failed to read file /logs: Cannot read data: Path is a directory node.")
    );
}

#[test]
fn cat_keeps_a_final_line_break() {
    let mut c = Console::boot();
    assert_eq!(
        c.say("cat /system/kernel.conf"),
        "--- /system/kernel.conf ---\n[kernel]\nversion=1.0.0\nzero_unsafe=true\nsecurity=tmr_ecc\n------------------\n"
    );
}

#[test]
fn head_and_tail_take_lines() {
    let mut c = Console::boot();
    assert_eq!(c.say("head -n 1 /data/system_info.log"), "2026-05-27: AE-Rustanium booted successfully.\n");
    assert_eq!(
        c.say("tail -n 1 /data/system_info.log"),
        "2026-05-27: Background scrubber sweep running.\n"
    );
    assert_eq!(c.say("head"), red("Usage: head [-n <count>] <path>"));
    assert_eq!(c.say("tail -n 2"), red("Usage: tail [-n <count>] <path>"));
    assert_eq!(c.say("head /nothing"), red("[VFS ERR] head: File or directory not found in path lookup."));
    assert_eq!(c.say("head /system/kernel.conf").lines().count(), 4);
}

#[test]
fn rm_cp_and_mv() {
    let mut c = Console::boot();
    assert_eq!(c.say("rm"), red("Usage: rm [-rf] <path>"));
    assert_eq!(c.say("rm -rf"), red("Usage: rm -rf <path>"));
    assert_eq!(c.say("cp /system/kernel.conf /data/k.conf"), "[VFS] Copied '/system/kernel.conf' -> '/data/k.conf'\n");
    assert_eq!(c.say("cat /data/k.conf"), c.say("cat /system/kernel.conf").replace("/system/kernel.conf", "/data/k.conf"));
    assert_eq!(c.say("mv /data/k.conf /bin/k2.conf"), "[VFS] Moved '/data/k.conf' -> '/bin/k2.conf'\n");
    assert_eq!(c.say("ls /bin"), "/bin:\n  k2.conf\n");
    assert_eq!(c.say("rm /system"), red("[VFS ERR] remove failed: Directory is not empty. Use 'rm -rf' to remove recursively."));
    assert_eq!(c.say("rm -rf /system"), "[VFS] Removed node: /system\n");
    assert_eq!(c.say("cp a"), red("Usage: cp <src> <dst>"));
    assert_eq!(c.say("mv a"), red("Usage: mv <src> <dst>"));
}

#[test]
fn find_and_tree() {
    let mut c = Console::boot();
    assert_eq!(c.say("find conf"), "/system/kernel.conf\n");
    assert_eq!(c.say("find zzz"), "(no match found for 'zzz')\n");
    assert_eq!(c.say("find"), red("Usage: find <name>"));
    let tree = c.say("vfs");
    assert!(tree.starts_with(&format!("{}VFS TREE STRUCTURE\n{}", RULE, RULE)));
    assert!(tree.ends_with(RULE));
    assert!(tree.contains("kernel.conf"));
}

#[test]
fn loadkeys_answers() {
    let mut c = Console::boot();
    assert_eq!(c.say("loadkeys"), "Usage: loadkeys <layout> (e.g. us, trq)\n");
    assert_eq!(c.say("loadkeys trq"), "Keyboard layout switched to Turkish Q (TRQ).\n");
    assert_eq!(c.say("loadkeys us"), "Keyboard layout switched to US.\n");
    assert_eq!(c.say("loadkeys de"), "Unknown keyboard layout: 'de'. Supported: us, trq\n");
}

#[test]
fn status_free_and_tasks() {
    let mut c = Console::boot();
    let used = c.core.allocator.allocation_map.iter().filter(|p| p.is_some()).count();
    let status = c.say("status");
    assert!(status.starts_with(&format!("{}SYSTEM HEALTH & PHYSICAL MEMORY STATUS\n{}Scrubber Sweeps:           0\n", RULE, RULE)));
    assert!(status.ends_with(&format!("Allocated Page Frames:     {}/64\n{}", used, RULE)));
    let free = c.say("free");
    assert!(free.contains(&format!("Total  pages : 64\nUsed   pages : {}\nFree   pages : {}\n", used, 64 - used)));
    let tasks = c.say("tasks");
    assert!(tasks.contains("PID   | Process Name     | Critical | Allocated Pages\n"));
    assert!(tasks.contains("101   | Telemetry        | NO       | [0]\n"));
    assert!(tasks.contains("102   | Navigation       | YES (TMR) | [1]\n"));
}

#[test]
fn usermode_and_run_hand_over_programs() {
    let mut c = Console::boot();
    let r = c.run("usermode");
    assert!(matches!(r.action, ShellAction::UserDemo));
    assert_eq!(r.text, format!("{}LAUNCHING RING 3 USER SPACE & SYSCALL DEMONSTRATION\n{}", RULE, RULE));
    assert_eq!(r.after, RULE);
    let r = c.run("run /bin/missing.bin");
    assert!(matches!(r.action, ShellAction::Nothing));
    assert_eq!(
        r.text,
        red("[RUN ERR] Failed to load program '/bin/missing.bin': File or directory not found in path lookup.")
    );
    let r = c.run("run /system/kernel.conf");
    match r.action {
        ShellAction::RunProgram(data) => assert_eq!(data, b"[kernel]\nversion=1.0.0\nzero_unsafe=true\nsecurity=tmr_ecc\n".to_vec()),
        _ => panic!("expected a program"),
    }
    assert_eq!(r.text, format!("{}LAUNCHING RING 3 PROCESS FROM VFS: /system/kernel.conf\n{}", RULE, RULE));
    assert_eq!(c.say("run"), red("Usage: run <path_to_binary.bin>"));
}

#[test]
fn inject_flip_targets_the_first_allocated_frame() {
    let mut c = Console::boot();
    let text = c.say("inject-flip");
    assert_eq!(
        text,
        "[INJECTOR] Targeting frame 0 (allocated to process)...\n\x1B[38;5;220m[INJECTOR OK] Injected synthetic bit flip into physical frame 0 offset 8, bit 3!\x1B[0m\n[INJECTOR] Scrubber will auto-heal it on the next scheduler tick.\n"
    );
}
