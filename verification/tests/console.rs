use rustanium::interrupts::InterruptIndex;
use rustanium::keyboard::{KeyboardInput, KeyboardLayout, KeyboardState};
use rustanium::logger::{append_log, SerialPort};
use rustanium::paths::{
    normalize_path, resolve_absolute_path, resolve_relative_path, split_parent_child, split_path,
};
use rustanium::threads::{Scheduler, ThreadStatus};

#[test]
fn us_layout_decodes_with_and_without_shift() {
    let mut kb = KeyboardState::new();
    assert_eq!(kb.handle_scancode(0x1E), Some(KeyboardInput::Char('a')));
    assert_eq!(kb.handle_scancode(0x2A), None);
    assert_eq!(kb.handle_scancode(0x1E), Some(KeyboardInput::Char('A')));
    assert_eq!(kb.handle_scancode(0x02), Some(KeyboardInput::Char('!')));
    assert_eq!(kb.handle_scancode(0xAA), None);
    assert_eq!(kb.handle_scancode(0x02), Some(KeyboardInput::Char('1')));
    assert_eq!(kb.handle_scancode(0x39), Some(KeyboardInput::Char(' ')));
    assert_eq!(kb.handle_scancode(0x28), Some(KeyboardInput::Char('\'')));
}

#[test]
fn special_keys_and_releases() {
    let mut kb = KeyboardState::new();
    assert_eq!(kb.handle_scancode(0x0E), Some(KeyboardInput::Backspace));
    assert_eq!(kb.handle_scancode(0x1C), Some(KeyboardInput::Enter));
    assert_eq!(kb.handle_scancode(0x3B), Some(KeyboardInput::F1));
    assert_eq!(kb.handle_scancode(0x3C), Some(KeyboardInput::F2));
    assert_eq!(kb.handle_scancode(0x49), Some(KeyboardInput::PageUp));
    assert_eq!(kb.handle_scancode(0x51), Some(KeyboardInput::PageDown));
    assert_eq!(kb.handle_scancode(0x9E), None);
    assert_eq!(kb.handle_scancode(0x01), None);
}

#[test]
fn turkish_layout_maps_to_ascii() {
    let mut kb = KeyboardState::new();
    kb.set_layout(KeyboardLayout::Trq);
    assert_eq!(kb.handle_scancode(0x1A), Some(KeyboardInput::Char('g')));
    assert_eq!(kb.handle_scancode(0x0C), Some(KeyboardInput::Char('*')));
    assert_eq!(kb.handle_scancode(0x2B), Some(KeyboardInput::Char(',')));
    assert_eq!(kb.handle_scancode(0x36), None);
    assert_eq!(kb.handle_scancode(0x03), Some(KeyboardInput::Char('\'')));
    assert_eq!(kb.handle_scancode(0x35), Some(KeyboardInput::Char(':')));
}

#[test]
fn path_splitting() {
    assert_eq!(split_path("/a/b/c"), (String::from("/a/b"), String::from("c")));
    assert_eq!(split_path("/a"), (String::from("/"), String::from("a")));
    assert_eq!(split_path("/a/b/"), (String::from("/a"), String::from("b")));
    assert_eq!(split_path("name"), (String::from("/"), String::from("name")));
    assert_eq!(split_path("///"), (String::from("/"), String::from("")));
    assert_eq!(split_parent_child("/x/y"), (String::from("/x"), String::from("y")));
}

#[test]
fn path_normalization() {
    assert_eq!(normalize_path("/a/./b/../c"), "/a/c");
    assert_eq!(normalize_path("/../.."), "/");
    assert_eq!(normalize_path("//a//b/"), "/a/b");
    assert_eq!(resolve_relative_path("/home", "docs/../x"), "/home/x");
    assert_eq!(resolve_relative_path("/home/", "x"), "/home/x");
    assert_eq!(resolve_relative_path("/home", "/etc/./y"), "/etc/y");
    assert_eq!(resolve_absolute_path("/", "data"), "/data");
    assert_eq!(resolve_absolute_path("/data", ".."), "/");
    assert_eq!(resolve_absolute_path("/data", "logs/a.txt"), "/data/logs/a.txt");
}

#[test]
fn scrollback_drops_blank_lines_and_keeps_the_last_250() {
    let mut logs: Vec<String> = Vec::new();
    assert!(append_log(&mut logs, "first\r\n\n  \nsecond"));
    assert_eq!(logs, vec![String::from("first"), String::from("second")]);
    assert!(!append_log(&mut logs, " \t\r\n"));
    for i in 0..300 {
        append_log(&mut logs, &format!("line {}", i));
    }
    assert_eq!(logs.len(), 250);
    assert_eq!(logs[0], "line 50");
    assert_eq!(logs[249], "line 299");
}

#[test]
fn serial_port_keeps_its_address() {
    let port = SerialPort::new(0x3F8);
    assert_eq!(port.port_num(), 0x3F8);
}

#[test]
fn interrupt_vectors() {
    assert_eq!(InterruptIndex::Timer.as_u8(), 32);
    assert_eq!(InterruptIndex::Keyboard.as_u8(), 33);
    assert_eq!(InterruptIndex::Keyboard.as_usize(), 33);
}

#[test]
fn round_robin_scheduling() {
    let mut sched = Scheduler::new();
    assert_eq!(sched.thread_yield(), None);
    sched.register_main_thread();
    assert_eq!(sched.threads[0].status, ThreadStatus::Running);
    assert_eq!(sched.thread_yield(), None);
    sched.register_main_thread();
    sched.threads[1].status = ThreadStatus::Ready;
    assert_eq!(sched.thread_yield(), Some((0, 1)));
    assert_eq!(sched.current_thread_idx, 1);
    assert_eq!(sched.threads[0].status, ThreadStatus::Ready);
    assert_eq!(sched.threads[1].status, ThreadStatus::Running);
    assert_eq!(sched.thread_yield(), Some((1, 0)));
}
