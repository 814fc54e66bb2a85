use rustanium::allocator::MemoryAllocator;
use rustanium::console::{Terminal, TERM_MAX_COLS, TERM_MAX_ROWS};
use rustanium::syscall::FdTable;
use rustanium::vfs::VirtualFileSystem;

fn row(t: &Terminal, r: usize) -> String {
    t.buffer[r].iter().collect::<String>().trim_end().to_string()
}

fn type_text(t: &mut Terminal, s: &str) {
    t.term_print_str(s);
}

struct Machine {
    fds: FdTable,
    vfs: VirtualFileSystem,
    alloc: MemoryAllocator,
}

fn machine() -> Machine {
    Machine { fds: FdTable::new(), vfs: VirtualFileSystem::new(), alloc: MemoryAllocator::new() }
}

fn run(t: &mut Terminal, m: &mut Machine, cmd: &str) -> bool {
    type_text(t, cmd);
    t.term_process_command(&mut m.fds, &mut m.vfs, &mut m.alloc)
}

#[test]
fn printing_wraps_and_scrolls() {
    let mut t = Terminal::new();
    assert_eq!(t.buffer.len(), TERM_MAX_ROWS);
    t.term_print_str("ab");
    assert_eq!(row(&t, 0), "ab");
    assert_eq!((t.row, t.col), (0, 2));
    let long: String = std::iter::repeat('x').take(TERM_MAX_COLS).collect();
    t.term_print_str(&long);
    assert_eq!((t.row, t.col), (1, 2));
    for _ in 0..20 {
        t.term_print_char('\n');
    }
    assert_eq!(t.row, TERM_MAX_ROWS - 1);
    assert_eq!(row(&t, TERM_MAX_ROWS - 1), "");
}

#[test]
fn backspace_stops_at_the_prompt() {
    let mut t = Terminal::new();
    t.term_print_str("desktop:/> ab");
    t.term_print_char('\u{8}');
    assert_eq!(row(&t, 0), "desktop:/> a");
    t.term_print_char('\u{8}');
    t.term_print_char('\u{8}');
    t.term_print_char('\u{8}');
    assert_eq!(row(&t, 0), "desktop:/>");
    assert_eq!(t.col, 11);
}

#[test]
fn banner_ends_with_a_prompt() {
    let mut t = Terminal::new();
    t.term_init();
    assert_eq!(row(&t, 0), "AE Rustanium Flight DE (Ring 3 User Mode)");
    assert_eq!(row(&t, t.row), "desktop:/>");
    assert_eq!(t.col, 11);
}

#[test]
fn help_and_unknown_commands() {
    let mut t = Terminal::new();
    let mut m = machine();
    t.term_print_str("desktop:/> ");
    assert!(!run(&mut t, &mut m, "HELP"));
    // The help line is longer than a row and wraps.
    assert_eq!(row(&t, 1), "Commands: help, about, clear, ls, mkdir, touch, cat, ech");
    assert_eq!(row(&t, 2), "o, exit");
    assert_eq!(row(&t, 3), "desktop:/>");
    assert!(!run(&mut t, &mut m, "frobnicate"));
    assert_eq!(row(&t, 4), "Command not recognized. Type 'help'.");
}

#[test]
fn files_through_the_console() {
    let mut t = Terminal::new();
    let mut m = machine();
    t.term_print_str("desktop:/> ");
    run(&mut t, &mut m, "mkdir docs");
    run(&mut t, &mut m, "echo hello there > /docs/a.txt");
    run(&mut t, &mut m, "cat /docs/a.txt");
    run(&mut t, &mut m, "ls /docs");
    // The command starts after the last "> " of the row, so the redirection
    // of an echo typed at the prompt is taken for a prompt; opening the file
    // with cat then creates it empty.
    let screen: Vec<String> = (0..7).map(|r| row(&t, r)).collect();
    assert_eq!(
        screen,
        vec![
            "desktop:/> mkdir docs",
            "Directory created successfully.",
            "desktop:/> echo hello there > /docs/a.txt",
            "Command not recognized. Type 'help'.",
            "desktop:/> cat /docs/a.txt",
            "desktop:/> ls /docs",
            "a.txt",
        ]
    );
    m.vfs.write_file("/docs/a.txt", b"hello there", &mut m.alloc, 1000).unwrap();
    run(&mut t, &mut m, "cat docs/a.txt");
    assert_eq!(row(&t, 8), "hello there");
    run(&mut t, &mut m, "touch b.txt");
    assert!(m.vfs.resolve_path("/b.txt").is_ok());
    run(&mut t, &mut m, "cat");
    run(&mut t, &mut m, "echo nothing");
    assert!(t.buffer.iter().any(|r| r.iter().collect::<String>().starts_with("Usage: echo <text> > <file_path>")));
    // Every descriptor the console opened was closed again.
    assert!(m.fds.slots.iter().all(|s| s.is_none()));
}

#[test]
fn clear_and_exit() {
    let mut t = Terminal::new();
    let mut m = machine();
    t.term_print_str("desktop:/> ");
    assert!(!run(&mut t, &mut m, "clear"));
    assert!(t.buffer.iter().all(|r| r.iter().all(|c| *c == ' ')));
    assert_eq!((t.row, t.col), (0, 0));
    t.term_print_str("desktop:/> ");
    assert!(run(&mut t, &mut m, "exit"));
    assert_eq!(row(&t, 1), "Returning control to microkernel...");
}
