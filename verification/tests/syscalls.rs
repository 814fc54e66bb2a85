use rustanium::allocator::MemoryAllocator;
use rustanium::keyboard::KeyboardInput;
use rustanium::shell::find_in_vfs;
use rustanium::syscall::{make_directory, stdin_byte, FdTable, SYS_ERR, SYS_ERR_NO_FD};
use rustanium::vfs::VirtualFileSystem;

#[test]
fn open_creates_missing_files_and_hands_out_the_lowest_descriptor() {
    let mut vfs = VirtualFileSystem::new();
    let mut fds = FdTable::new();
    assert_eq!(fds.open(&mut vfs, "notes.txt"), 3);
    assert!(vfs.resolve_path("/notes.txt").is_ok());
    assert_eq!(fds.open(&mut vfs, "/notes.txt"), 4);
    assert_eq!(fds.slots[3].as_ref().unwrap().path, "/notes.txt");
    assert_eq!(fds.slots[3].as_ref().unwrap().offset, 0);
    assert_eq!(fds.close(3), 0);
    assert_eq!(fds.open(&mut vfs, "/notes.txt"), 3);
    assert_eq!(fds.open(&mut vfs, ""), SYS_ERR);
}

#[test]
fn open_prepares_the_parent_directory() {
    let mut vfs = VirtualFileSystem::new();
    let mut fds = FdTable::new();
    assert_eq!(fds.open(&mut vfs, "/logs/boot.txt"), 3);
    assert!(vfs.resolve_path("/logs").is_ok());
    assert!(vfs.resolve_path("/logs/boot.txt").is_ok());
}

#[test]
fn descriptors_run_out() {
    let mut vfs = VirtualFileSystem::new();
    let mut fds = FdTable::new();
    for expected in 3..16u64 {
        assert_eq!(fds.open(&mut vfs, "/f"), expected);
    }
    assert_eq!(fds.open(&mut vfs, "/f"), SYS_ERR_NO_FD);
}

#[test]
fn close_rejects_standard_streams_and_free_descriptors() {
    let mut fds = FdTable::new();
    assert_eq!(fds.close(1), SYS_ERR);
    assert_eq!(fds.close(5), SYS_ERR);
    assert_eq!(fds.close(16), SYS_ERR);
}

#[test]
fn writes_and_reads_move_the_position() {
    let mut vfs = VirtualFileSystem::new();
    let mut alloc = MemoryAllocator::new();
    let mut fds = FdTable::new();
    let fd = fds.open(&mut vfs, "/data.bin") as usize;
    assert_eq!(fds.write(&mut vfs, &mut alloc, fd, b"hello world"), 11);
    assert_eq!(fds.slots[fd].as_ref().unwrap().offset, 11);
    let other = fds.open(&mut vfs, "/data.bin") as usize;
    let (n, bytes) = fds.read(&mut vfs, &mut alloc, other, 5, None);
    assert_eq!(n, 5);
    assert_eq!(bytes, b"hello");
    let (n, bytes) = fds.read(&mut vfs, &mut alloc, other, 100, None);
    assert_eq!(n, 6);
    assert_eq!(bytes, b" world");
    let (n, bytes) = fds.read(&mut vfs, &mut alloc, other, 100, None);
    assert_eq!(n, 0);
    assert!(bytes.is_empty());
    assert_eq!(vfs.read_file("/data.bin", &mut alloc).unwrap(), b"hello world");
}

#[test]
fn a_write_past_the_end_is_zero_filled() {
    let mut vfs = VirtualFileSystem::new();
    let mut alloc = MemoryAllocator::new();
    let mut fds = FdTable::new();
    let fd = fds.open(&mut vfs, "/z") as usize;
    assert_eq!(fds.write(&mut vfs, &mut alloc, fd, b"ab"), 2);
    fds.slots[fd].as_mut().unwrap().offset = 4;
    assert_eq!(fds.write(&mut vfs, &mut alloc, fd, b"cd"), 2);
    assert_eq!(vfs.read_file("/z", &mut alloc).unwrap(), vec![b'a', b'b', 0, 0, b'c', b'd']);
}

#[test]
fn standard_streams_and_bad_descriptors() {
    let mut vfs = VirtualFileSystem::new();
    let mut alloc = MemoryAllocator::new();
    let mut fds = FdTable::new();
    assert_eq!(fds.write(&mut vfs, &mut alloc, 1, b"abc"), 3);
    assert_eq!(fds.write(&mut vfs, &mut alloc, 0, b"abc"), SYS_ERR);
    assert_eq!(fds.write(&mut vfs, &mut alloc, 7, b"abc"), SYS_ERR);
    assert_eq!(fds.write(&mut vfs, &mut alloc, 7, b""), 0);
    assert_eq!(fds.read(&mut vfs, &mut alloc, 0, 4, Some(b'x')), (1, vec![b'x']));
    assert_eq!(fds.read(&mut vfs, &mut alloc, 0, 4, None), (0, vec![]));
    assert_eq!(fds.read(&mut vfs, &mut alloc, 2, 4, None), (0, vec![]));
    assert_eq!(fds.read(&mut vfs, &mut alloc, 9, 4, None), (SYS_ERR, vec![]));
    assert_eq!(fds.read(&mut vfs, &mut alloc, 9, 0, None), (0, vec![]));
}

#[test]
fn reading_a_directory_lists_its_entries() {
    let mut vfs = VirtualFileSystem::new();
    let mut alloc = MemoryAllocator::new();
    let mut fds = FdTable::new();
    vfs.mkdir("/", "bin").unwrap();
    vfs.create_file("/", "readme").unwrap();
    let fd = fds.open(&mut vfs, "/") as usize;
    let (n, bytes) = fds.read(&mut vfs, &mut alloc, fd, 1024, None);
    assert_eq!(bytes, b"bin/\nreadme\n");
    assert_eq!(n, 12);
}

#[test]
fn mkdir_syscall() {
    let mut vfs = VirtualFileSystem::new();
    assert_eq!(make_directory(&mut vfs, "apps"), 0);
    assert!(vfs.resolve_path("/apps").is_ok());
    assert_eq!(make_directory(&mut vfs, "/apps"), SYS_ERR);
    assert_eq!(make_directory(&mut vfs, ""), SYS_ERR);
    assert_eq!(make_directory(&mut vfs, "/x/y"), 0);
    assert!(vfs.resolve_path("/x/y").is_ok());
}

#[test]
fn keys_on_standard_input() {
    assert_eq!(stdin_byte(KeyboardInput::Char('a')), Some(b'a'));
    assert_eq!(stdin_byte(KeyboardInput::Enter), Some(b'\n'));
    assert_eq!(stdin_byte(KeyboardInput::Backspace), Some(8));
    assert_eq!(stdin_byte(KeyboardInput::F1), None);
}

#[test]
fn find_collects_matching_paths_depth_first() {
    let mut vfs = VirtualFileSystem::new();
    vfs.mkdir("/", "logs").unwrap();
    vfs.create_file("/logs", "boot.log").unwrap();
    vfs.mkdir("/", "etc").unwrap();
    vfs.create_file("/etc", "log.conf").unwrap();
    let mut results = Vec::new();
    find_in_vfs(&vfs, 0, "/", "log", &mut results);
    assert_eq!(results, vec!["/logs", "/logs/boot.log", "/etc/log.conf"]);
    let mut none = Vec::new();
    find_in_vfs(&vfs, 0, "/", "zzz", &mut none);
    assert!(none.is_empty());
}

#[test]
fn the_file_tree_lines() {
    let mut vfs = VirtualFileSystem::new();
    let mut alloc = MemoryAllocator::new();
    vfs.mkdir("/", "etc").unwrap();
    vfs.create_file("/etc", "hosts").unwrap();
    vfs.write_file("/etc/hosts", b"abc", &mut alloc, 1).unwrap();
    let lines = rustanium::shell::vfs_tree_lines(&vfs, 0, 0);
    assert_eq!(
        lines,
        vec![
            "\u{1b}[38;5;33m/\u{1b}[0m".to_string(),
            "  \u{251c}\u{2500}\u{2500} \u{1b}[38;5;33metc/\u{1b}[0m".to_string(),
            format!("    \u{251c}\u{2500}\u{2500} {:<16} \u{1b}[38;5;246m({} bytes)\u{1b}[0m", "hosts", 3),
        ]
    );
}
