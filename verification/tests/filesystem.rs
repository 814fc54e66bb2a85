use rustanium::allocator::{MemoryAllocator, PageStatus};
use rustanium::inode::InodeType;
use rustanium::vfs::VirtualFileSystem;
use rustanium::kernel_core::SystemCore;

#[test]
fn test_vfs_path_resolution_and_nesting() {
    let mut vfs = VirtualFileSystem::new();
    vfs.mkdir("/", "system").unwrap();
    vfs.mkdir("/system", "config").unwrap();
    vfs.mkdir("/", "data").unwrap();
    assert_eq!(vfs.resolve_path("/").unwrap(), 0);
    let system_idx = vfs.resolve_path("/system").unwrap();
    let config_idx = vfs.resolve_path("/system/config").unwrap();
    assert_ne!(system_idx, config_idx);
    assert!(vfs.resolve_path("/nonexistent").is_err());
    assert!(vfs.resolve_path("invalid_relative").is_err());
}

#[test]
fn test_file_create_and_write_read() {
    let mut allocator = MemoryAllocator::new();
    let mut vfs = VirtualFileSystem::new();
    let pid = 200;
    vfs.mkdir("/", "data").unwrap();
    vfs.create_file("/data", "telemetry.log").unwrap();
    let content = b"AE-RUSTANIUM-SYSTEM-OK-2026-FLIGHT-GUIDANCE-ONLINE";
    vfs.write_file("/data/telemetry.log", content, &mut allocator, pid).unwrap();
    let read_back = vfs.read_file("/data/telemetry.log", &mut allocator).unwrap();
    assert_eq!(read_back, content);
}

#[test]
fn test_large_file_span_multiple_pages() {
    let mut allocator = MemoryAllocator::new();
    let mut vfs = VirtualFileSystem::new();
    let pid = 300;
    vfs.create_file("/", "large.txt").unwrap();
    let mut content = Vec::new();
    for i in 0..150 {
        content.push((i % 256) as u8);
    }
    vfs.write_file("/large.txt", &content, &mut allocator, pid).unwrap();
    let idx = vfs.resolve_path("/large.txt").unwrap();
    if let InodeType::File { blocks, size } = &vfs.inodes[idx].inode_type {
        assert_eq!(blocks.len(), 3);
        assert_eq!(*size, 150);
    } else {
        panic!("Expected file type");
    }
    let read_back = vfs.read_file("/large.txt", &mut allocator).unwrap();
    assert_eq!(read_back, content);
}

#[test]
fn test_file_read_self_healing_recovery() {
    let mut allocator = MemoryAllocator::new();
    let mut vfs = VirtualFileSystem::new();
    let pid = 400;
    vfs.create_file("/", "fault_test.txt").unwrap();
    let content = b"SELF_HEALING_VFS_RECOVERY_TEST";
    vfs.write_file("/fault_test.txt", content, &mut allocator, pid).unwrap();
    let idx = vfs.resolve_path("/fault_test.txt").unwrap();
    let initial_frame = if let InodeType::File { blocks, .. } = &vfs.inodes[idx].inode_type {
        blocks[0]
    } else {
        panic!("Expected file");
    };
    allocator.inject_bit_flip(initial_frame, 0, 1).unwrap();
    allocator.inject_bit_flip(initial_frame, 0, 4).unwrap();
    let read_back = vfs.read_file("/fault_test.txt", &mut allocator).unwrap();
    assert_eq!(read_back.len(), content.len());
    assert_eq!(read_back[0], 0);
    assert_eq!(&read_back[1..], &content[1..]);
    let final_frame = if let InodeType::File { blocks, .. } = &vfs.inodes[idx].inode_type {
        blocks[0]
    } else {
        panic!("Expected file");
    };
    assert_ne!(initial_frame, final_frame);
    assert_eq!(allocator.frames[initial_frame].status, PageStatus::Quarantined);
    assert_eq!(allocator.allocation_map[final_frame], Some(pid));
}

#[test]
fn test_remove_node() {
    let mut allocator = MemoryAllocator::new();
    let mut vfs = VirtualFileSystem::new();
    let pid = 500;
    vfs.mkdir("/", "temp").unwrap();
    vfs.create_file("/temp", "foo.txt").unwrap();
    vfs.write_file("/temp/foo.txt", b"Hello", &mut allocator, pid).unwrap();
    let foo_idx = vfs.resolve_path("/temp/foo.txt").unwrap();
    let frame_idx = if let InodeType::File { blocks, .. } = &vfs.inodes[foo_idx].inode_type {
        blocks[0]
    } else {
        panic!("Expected file");
    };
    assert_eq!(allocator.allocation_map[frame_idx], Some(pid));
    assert!(vfs.remove_node("/temp", false, &mut allocator).is_err());
    vfs.remove_node("/temp/foo.txt", false, &mut allocator).unwrap();
    assert_eq!(allocator.allocation_map[frame_idx], None);
    vfs.remove_node("/temp", false, &mut allocator).unwrap();
    assert!(vfs.resolve_path("/temp").is_err());
}

#[test]
fn read_after_write_returns_the_bytes_written() {
    let mut allocator = MemoryAllocator::new();
    let mut vfs = VirtualFileSystem::new();
    vfs.create_file("/", "a").unwrap();
    vfs.write_file("/a", b"first version", &mut allocator, 1).unwrap();
    vfs.write_file("/a", b"second", &mut allocator, 1).unwrap();
    assert_eq!(vfs.read_file("/a", &mut allocator).unwrap(), b"second");
    vfs.write_file("/a", b"", &mut allocator, 1).unwrap();
    assert_eq!(vfs.read_file("/a", &mut allocator).unwrap(), b"");
}

#[test]
fn rewriting_releases_the_old_frames() {
    let mut allocator = MemoryAllocator::new();
    let mut vfs = VirtualFileSystem::new();
    vfs.create_file("/", "a").unwrap();
    vfs.write_file("/a", &[7u8; 130], &mut allocator, 1).unwrap();
    let used = allocator.allocation_map.iter().filter(|o| o.is_some()).count();
    assert_eq!(used, 3);
    vfs.write_file("/a", b"x", &mut allocator, 1).unwrap();
    let used = allocator.allocation_map.iter().filter(|o| o.is_some()).count();
    assert_eq!(used, 1);
}

#[test]
fn error_cases_of_the_file_system() {
    let mut allocator = MemoryAllocator::new();
    let mut vfs = VirtualFileSystem::new();
    vfs.mkdir("/", "d").unwrap();
    vfs.create_file("/", "f").unwrap();
    assert_eq!(vfs.resolve_path("d"), Err("Path must be absolute (must start with '/')."));
    assert_eq!(vfs.resolve_path("/f/x"), Err("Attempted to lookup path component inside a regular file node."));
    assert_eq!(vfs.mkdir("/", "d"), Err("Directory or file already exists with this name."));
    assert_eq!(vfs.mkdir("/f", "x"), Err("Parent path is not a directory."));
    assert_eq!(vfs.write_file("/d", b"x", &mut allocator, 1), Err("Cannot write data: Path is a directory node."));
    assert_eq!(vfs.read_file("/d", &mut allocator), Err("Cannot read data: Path is a directory node."));
    assert_eq!(vfs.remove_node("/", true, &mut allocator), Err("Cannot remove the root directory node."));
    assert_eq!(vfs.rename_node("/", "/d", "x"), Err("Cannot rename the root directory."));
    assert_eq!(vfs.rename_node("/f", "/f", "x"), Err("Destination parent is not a directory."));
    assert_eq!(vfs.rename_node("/f", "/", "d"), Err("A file or directory with that name already exists."));
    let big = vec![1u8; 64 * 65];
    assert_eq!(
        vfs.write_file("/f", &big, &mut allocator, 1),
        Err("Out of physical memory blocks: file write failed.")
    );
}

#[test]
fn recursive_removal_frees_every_file_below() {
    let mut allocator = MemoryAllocator::new();
    let mut vfs = VirtualFileSystem::new();
    vfs.mkdir("/", "top").unwrap();
    vfs.mkdir("/top", "sub").unwrap();
    vfs.create_file("/top/sub", "a").unwrap();
    vfs.create_file("/top", "b").unwrap();
    vfs.write_file("/top/sub/a", &[1u8; 100], &mut allocator, 3).unwrap();
    vfs.write_file("/top/b", b"bb", &mut allocator, 3).unwrap();
    assert_eq!(
        vfs.remove_node("/top", false, &mut allocator),
        Err("Directory is not empty. Use 'rm -rf' to remove recursively.")
    );
    vfs.remove_node("/top/", true, &mut allocator).unwrap();
    assert!(allocator.allocation_map.iter().all(|o| o.is_none()));
    assert!(vfs.resolve_path("/top").is_err());
}

#[test]
fn rename_moves_the_entry_and_keeps_the_data() {
    let mut allocator = MemoryAllocator::new();
    let mut vfs = VirtualFileSystem::new();
    vfs.mkdir("/", "src").unwrap();
    vfs.mkdir("/", "dst").unwrap();
    vfs.create_file("/src", "note").unwrap();
    vfs.write_file("/src/note", b"payload", &mut allocator, 2).unwrap();
    let idx = vfs.resolve_path("/src/note").unwrap();
    vfs.rename_node("/src/note", "/dst", "moved").unwrap();
    assert!(vfs.resolve_path("/src/note").is_err());
    assert_eq!(vfs.resolve_path("/dst/moved"), Ok(idx));
    assert_eq!(vfs.inodes[idx].name, "moved");
    assert_eq!(vfs.read_file("/dst/moved", &mut allocator).unwrap(), b"payload");
}

#[test]
fn copy_duplicates_the_bytes_into_new_frames() {
    let mut allocator = MemoryAllocator::new();
    let mut vfs = VirtualFileSystem::new();
    vfs.mkdir("/", "d").unwrap();
    vfs.create_file("/", "orig").unwrap();
    vfs.write_file("/orig", b"copy me", &mut allocator, 4).unwrap();
    vfs.copy_file("/orig", "/d", "dup", &mut allocator, 6).unwrap();
    assert_eq!(vfs.read_file("/d/dup", &mut allocator).unwrap(), b"copy me");
    vfs.copy_file("/orig", "/", "dup2", &mut allocator, 6).unwrap();
    assert_eq!(vfs.read_file("/dup2", &mut allocator).unwrap(), b"copy me");
    assert_eq!(
        vfs.copy_file("/orig", "/d", "dup", &mut allocator, 6),
        Err("Directory or file already exists with this name.")
    );
    let owned_by_6 = allocator.allocation_map.iter().filter(|o| **o == Some(6)).count();
    assert_eq!(owned_by_6, 2);
}

use rustanium::dashboard_shell::{
    event_tone, frame_tag, page_bytes, shell_cd, EventTone, ShellCdError, ShellRmError, ShellWriteError,
};

#[test]
fn frame_tags_name_the_owner() {
    assert_eq!(frame_tag(Some(101), PageStatus::Healthy), 'T');
    assert_eq!(frame_tag(Some(102), PageStatus::Quarantined), 'N');
    assert_eq!(frame_tag(Some(103), PageStatus::Healthy), 'L');
    assert_eq!(frame_tag(Some(7), PageStatus::Healthy), '*');
    assert_eq!(frame_tag(None, PageStatus::Quarantined), 'X');
    assert_eq!(frame_tag(None, PageStatus::Recovered { corrected_count: 2 }), ' ');
}

#[test]
fn event_tones_follow_keywords() {
    assert_eq!(event_tone("SCRUBBER SEVERE: frame 3"), EventTone::Alert);
    assert_eq!(event_tone("page FAULT"), EventTone::Alert);
    assert_eq!(event_tone("ECC REPAIR done"), EventTone::Repair);
    assert_eq!(event_tone("HOT-SWAP to frame 9"), EventTone::Repair);
    assert_eq!(event_tone("TMR SUCCESS and WARNING"), EventTone::Alert);
    assert_eq!(event_tone("tick"), EventTone::Plain);
}

#[test]
fn shell_create_write_and_remove_log_their_work() {
    let mut core = SystemCore::bootstrap();
    let before = core.dispatcher.event_logs.len();
    assert_eq!(core.shell_create("/data", "logs", true).unwrap(), "/data/logs");
    assert_eq!(core.dispatcher.event_logs.last().unwrap(), "VFS SHELL: Created directory /data/logs");
    assert!(core.shell_create("/data", "logs", true).is_err());
    assert_eq!(core.shell_write("/data/logs", "a.txt hello  there").unwrap(), (String::from("/data/logs/a.txt"), 12));
    assert_eq!(core.dispatcher.event_logs.last().unwrap(), "VFS SHELL: Wrote 12 bytes to file /data/logs/a.txt");
    assert_eq!(core.vfs.read_file("/data/logs/a.txt", &mut core.allocator).unwrap(), b"hello  there".to_vec());
    assert_eq!(core.shell_write("/", ""), Err(ShellWriteError::NoArgument));
    assert_eq!(core.shell_write("/", "only_a_path"), Err(ShellWriteError::NoContent));
    assert_eq!(core.shell_write("/", "/missing/dir/f x"), Err(ShellWriteError::CreateFailed));
    assert_eq!(core.shell_rm("/", ""), Err(ShellRmError::NoArgument));
    assert_eq!(core.shell_rm("/", "-rf"), Err(ShellRmError::NoPath));
    assert!(matches!(core.shell_rm("/", "data"), Err(ShellRmError::Remove(_))));
    assert_eq!(core.shell_rm("/", "-rf data").unwrap(), (String::from("/data"), true));
    assert_eq!(core.dispatcher.event_logs.last().unwrap(), "VFS SHELL: Removed node /data (recursive: true)");
    assert!(core.dispatcher.event_logs.len() > before);
}

#[test]
fn shell_cd_resolves_directories_only() {
    let core = SystemCore::bootstrap();
    assert_eq!(shell_cd(&core.vfs, "/system", "").unwrap(), "/");
    assert_eq!(shell_cd(&core.vfs, "/", "system").unwrap(), "/system");
    assert_eq!(shell_cd(&core.vfs, "/system", "../data").unwrap(), "/data");
    assert_eq!(shell_cd(&core.vfs, "/", "system/kernel.conf"), Err(ShellCdError::NotDirectory(String::from("/system/kernel.conf"))));
    assert_eq!(shell_cd(&core.vfs, "/", "nowhere"), Err(ShellCdError::NotFound(String::from("/nowhere"))));
}

#[test]
fn page_bytes_decode_every_word() {
    let core = SystemCore::bootstrap();
    let bytes = page_bytes(&core.allocator.frames[3]);
    assert_eq!(bytes.len(), 64);
    assert_eq!(&bytes[0..8], b"[kernel]");
}
