use rustanium::inode::InodeType;
use rustanium::hal::{config_address, device_from_config, function_count, slot_devices};
use rustanium::allocator::MemoryAllocator;
use rustanium::dispatcher::TaskDispatcher;
use rustanium::kernel_core::SystemCore;
use rustanium::paths::{normalize_path, split_parent_child};
use rustanium::text::StrbufWriter;
use rustanium::vfs::VirtualFileSystem;

#[test]
fn boot_lays_down_the_file_tree() {
    let c = SystemCore::bootstrap();
    assert_eq!(c.vfs.inodes.len(), 6);
    assert_eq!(c.vfs.resolve_path("/"), Ok(0));
    assert_eq!(c.vfs.resolve_path("/system"), Ok(1));
    assert_eq!(c.vfs.resolve_path("/data"), Ok(2));
    assert_eq!(c.vfs.resolve_path("/bin"), Ok(3));
    assert_eq!(c.vfs.resolve_path("/system/kernel.conf"), Ok(4));
    assert_eq!(c.vfs.resolve_path("/data/system_info.log"), Ok(5));
}

#[test]
fn normalizing_twice_changes_nothing() {
    for p in ["/a/./b/../c//", "/../..", "x/y/", "/", "", "/a/b/c"] {
        let q = normalize_path(p);
        assert_eq!(normalize_path(&q), q);
        assert!(q == "/" || (q.starts_with('/') && !q.ends_with('/')));
    }
    assert_eq!(normalize_path("/a/./b/../c//"), "/a/c");
}

#[test]
fn split_reassembles_the_path() {
    let (parent, name) = split_parent_child("/data/logs/today.txt/");
    assert_eq!(parent, "/data/logs");
    assert_eq!(name, "today.txt");
    assert_eq!(format!("{}/{}", parent, name), "/data/logs/today.txt");
    let (parent, name) = split_parent_child("/top");
    assert_eq!(parent, "/");
    assert_eq!(format!("{}{}", parent, name), "/top");
}

#[test]
fn bounded_writes_compose() {
    let mut a = StrbufWriter::new(vec![0u8; 8]);
    a.write_str("abc");
    a.write_str("defgh");
    let mut b = StrbufWriter::new(vec![0u8; 8]);
    b.write_str("abcdefgh");
    assert_eq!(a.as_str(), b.as_str());
    assert_eq!(a.as_str(), "abcdefgh");
}

#[test]
fn reading_back_a_written_file_leaves_memory_alone() {
    let mut a = MemoryAllocator::new();
    let mut v = VirtualFileSystem::new();
    v.create_file("/", "f.txt").unwrap();
    v.write_file("/f.txt", b"hello world", &mut a, 9).unwrap();
    let frames: Vec<Vec<u16>> = a.frames.iter().map(|f| f.data.to_vec()).collect();
    let owners = a.allocation_map.clone();
    assert_eq!(v.read_file("/f.txt", &mut a).unwrap(), b"hello world".to_vec());
    let after: Vec<Vec<u16>> = a.frames.iter().map(|f| f.data.to_vec()).collect();
    assert_eq!(frames, after);
    assert_eq!(owners, a.allocation_map);
}

#[test]
fn tmr_warning_names_the_outvoted_runner() {
    let mut d = TaskDispatcher::new();
    let r = d.execute_critical_tmr("Calc", |i: usize| if i == 1 { 7u32 } else { 5u32 });
    assert_eq!(r, Some(5));
    assert_eq!(
        d.event_logs.last().unwrap(),
        "TMR WARNING: Divergence detected in runner 1 (produced '7'). Corrected by voter to majority '5'!"
    );
}

#[test]
fn random_flip_hits_a_working_page() {
    let mut c = SystemCore::bootstrap();
    assert_eq!(c.working_frames(), vec![0, 1, 2]);
    let before = c.allocator.frames[1].data[5];
    // seed 69: frame index 69 % 3 = 0 -> frame 0; offset 69 % 64 = 5; bit 69 % 16 = 5
    assert_eq!(c.inject_random_flip(69), Some(Ok(())));
    assert_eq!(c.allocator.frames[0].data[5] ^ (1 << 5), SystemCore::bootstrap().allocator.frames[0].data[5]);
    assert_eq!(c.allocator.frames[1].data[5], before);
    assert_eq!(c.dispatcher.event_logs.last().unwrap(), "INJECTOR: Flipped bit 5 at frame 0, offset 5");
}

#[test]
fn random_double_flip_is_logged() {
    let mut c = SystemCore::bootstrap();
    assert!(c.inject_random_double_flip(4));
    // frame index 4 % 3 = 1 -> frame 1; offset 4
    assert_eq!(
        c.dispatcher.event_logs.last().unwrap(),
        "INJECTOR DOUBLE: Injected double-bit error at frame 1, offset 4"
    );
}

#[test]
fn pci_config_decoding() {
    assert_eq!(config_address(0, 2, 0, 0x10), 0x8000_1010);
    assert_eq!(config_address(1, 31, 7, 0x0F), 0x8001_FF0C);
    assert!(device_from_config(0, 3, 0, 0xFFFF_FFFF, 0, 0).is_none());
    assert!(device_from_config(0, 3, 0, 0x1234_0000, 0, 0).is_none());
    let d = device_from_config(0, 2, 1, 0x2484_10DE, 0x0300_0000, 0xFD00_0000).unwrap();
    assert_eq!((d.bus, d.slot, d.func), (0, 2, 1));
    assert_eq!((d.vendor_id, d.device_id, d.class_code, d.subclass, d.bar0), (0x10DE, 0x2484, 0x03, 0x00, 0xFD00_0000));
    assert_eq!(function_count(0x0080_0000), 8);
    assert_eq!(function_count(0x0000_0000), 1);
}

#[test]
fn slot_scan_lists_present_functions() {
    use_slot_scan();
}

fn use_slot_scan() {
    let none = vec![0xFFFF_FFFFu32; 8];
    let zeros = vec![0u32; 8];
    assert!(slot_devices(0, 4, 0x0080_0000, &none, &zeros, &zeros).is_empty());
    let mut ids = vec![0xFFFF_FFFFu32; 8];
    ids[0] = 0x1234_8086;
    ids[3] = 0x5678_8086;
    let classes = vec![0x0200_0000u32; 8];
    let bars = vec![0xF000_0000u32; 8];
    let single = slot_devices(0, 4, 0, &ids, &classes, &bars);
    assert_eq!(single.len(), 1);
    assert_eq!((single[0].func, single[0].device_id), (0, 0x1234));
    let multi = slot_devices(0, 4, 0x0080_0000, &ids, &classes, &bars);
    assert_eq!(multi.len(), 2);
    assert_eq!((multi[1].func, multi[1].device_id, multi[1].class_code), (3, 0x5678, 0x02));
}

#[test]
fn step_logs_read_back_and_hot_swap() {
    let mut a = MemoryAllocator::new();
    let mut d = TaskDispatcher::new();
    d.spawn_process(10, "Guidance", false, &mut a).unwrap();
    d.execute_step(10, &mut a).unwrap();
    assert_eq!(d.event_logs[3], "READ VERIFY: PID 10 read back value 0x11 from offset 7");
    a.inject_bit_flip(0, 7, 0).unwrap();
    a.inject_bit_flip(0, 7, 4).unwrap();
    d.execute_step(10, &mut a).unwrap();
    let n = d.event_logs.len();
    assert_eq!(d.event_logs[n - 4], "EXEC: 'Guidance' (PID: 10) writing 0x22 to frame 0, offset 14");
    assert_eq!(
        d.event_logs[n - 3],
        "CRITICAL FAULT: Double-bit flip on frame 0 at offset 7. Hot-swapping and relocating PID 10..."
    );
    assert_eq!(d.event_logs[n - 2], "HOT-SWAP: Frame 0 isolated/quarantined. PID 10 relocated to frame 1");
    assert!(d.event_logs[n - 1].starts_with("RESUME: PID 10 successfully recovered on healthy frame 1. Read byte: "));
}

#[test]
fn copy_leaves_the_source_readable_in_other_frames() {
    let mut a = MemoryAllocator::new();
    let mut v = VirtualFileSystem::new();
    v.create_file("/", "src").unwrap();
    v.write_file("/src", b"source bytes", &mut a, 9).unwrap();
    let si = v.resolve_path("/src").unwrap();
    let src_blocks = match &v.inodes[si].inode_type {
        InodeType::File { blocks, .. } => blocks.clone(),
        InodeType::Directory { .. } => panic!("not a file"),
    };
    a.inject_bit_flip(src_blocks[0], 2, 3).unwrap();
    v.copy_file("/src", "/", "dst", &mut a, 9).unwrap();
    assert_eq!(v.read_file("/src", &mut a).unwrap(), b"source bytes");
    assert_eq!(v.read_file("/dst", &mut a).unwrap(), b"source bytes");
    let di = v.resolve_path("/dst").unwrap();
    let dst_blocks = match &v.inodes[di].inode_type {
        InodeType::File { blocks, .. } => blocks.clone(),
        InodeType::Directory { .. } => panic!("not a file"),
    };
    for b in &dst_blocks {
        assert!(!src_blocks.contains(b));
        assert_eq!(a.allocation_map[*b], Some(9));
    }
}

#[test]
fn boot_files_hold_their_texts() {
    let mut c = SystemCore::bootstrap();
    let conf = c.vfs.read_file("/system/kernel.conf", &mut c.allocator).unwrap();
    assert_eq!(conf, rustanium::kernel_core::KERNEL_CONF.as_bytes());
    let log = c.vfs.read_file("/data/system_info.log", &mut c.allocator).unwrap();
    assert_eq!(log, rustanium::kernel_core::SYSTEM_INFO.as_bytes());
    assert_eq!(log.len(), 150);
}
