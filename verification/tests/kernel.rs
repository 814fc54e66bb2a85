use rustanium::hal::PciBus;
use rustanium::kernel_core::SystemCore;

#[test]
fn test_kernel_bootstrap_and_tick() {
    let mut core = SystemCore::bootstrap();
    assert_eq!(core.dispatcher.processes.len(), 3);
    assert_eq!(core.scrubber_sweeps, 0);
    core.tick();
    core.tick();
    core.tick();
    assert_eq!(core.scrubber_sweeps, 3);
    assert_eq!(core.critical_tmr_ops, 3);
}

#[test]
fn test_memory_fault_scrubbing_integration() {
    let mut core = SystemCore::bootstrap();
    let pid_101_frame = core.dispatcher.processes[0].allocated_pages[0];
    core.inject_memory_flip(pid_101_frame, 4, 2).unwrap();
    core.tick();
    assert_eq!(core.ecc_single_bit_corrections, 1);
    assert_eq!(core.pages_quarantined, 0);
}

#[test]
fn boot_creates_processes_files_and_logs() {
    let mut core = SystemCore::bootstrap();
    let pids: Vec<u32> = core.dispatcher.processes.iter().map(|p| p.pid).collect();
    assert_eq!(pids, vec![101, 102, 103]);
    assert!(core.dispatcher.processes[1].is_critical);
    let conf = core.vfs.read_file("/system/kernel.conf", &mut core.allocator).unwrap();
    assert_eq!(conf, b"[kernel]\nversion=1.0.0\nzero_unsafe=true\nsecurity=tmr_ecc\n");
    assert!(core.vfs.resolve_path("/bin").is_ok());
    let log = core.vfs.read_file("/data/system_info.log", &mut core.allocator).unwrap();
    assert!(log.starts_with(b"2026-05-27: AE-Rustanium booted successfully."));
}

#[test]
fn every_fifth_tick_the_voter_outvotes_a_faulty_runner() {
    let mut core = SystemCore::bootstrap();
    for _ in 0..5 {
        core.tick();
    }
    assert_eq!(core.critical_tmr_ops, 5);
    assert_eq!(core.tmr_voter_corrections, 1);
    let last = core.dispatcher.event_logs.last().unwrap();
    assert_eq!(
        last,
        "TMR WARNING: Divergence detected in runner 1 (produced '22468'). Corrected by voter to majority '22500'!"
    );
}

#[test]
fn double_flip_found_by_the_sweep_is_relocated() {
    let mut core = SystemCore::bootstrap();
    let frame = core.dispatcher.processes[2].allocated_pages[0];
    core.inject_memory_flip(frame, 60, 0).unwrap();
    core.inject_memory_flip(frame, 60, 5).unwrap();
    core.tick();
    assert_eq!(core.pages_quarantined, 1);
    assert_eq!(core.pages_relocated, 1);
    assert!(core
        .dispatcher
        .event_logs
        .iter()
        .any(|l| l.starts_with("SCRUBBER SEVERE: Quarantine triggered! Hot-swapped damaged frame")));
}

#[test]
fn injection_logs_and_refuses_bad_arguments() {
    let mut core = SystemCore::bootstrap();
    core.inject_memory_flip(3, 4, 2).unwrap();
    assert_eq!(core.dispatcher.event_logs.last().unwrap(), "INJECTOR: Flipped bit 2 at frame 3, offset 4");
    assert!(core.inject_memory_flip(64, 0, 0).is_err());
    assert!(core.inject_memory_flip(0, 0, 16).is_err());
}

#[test]
fn simulated_bus_has_one_display_controller() {
    let devices = PciBus::scan_devices();
    assert_eq!(devices.len(), 1);
    assert_eq!(devices[0].vendor_id, 0x10DE);
    assert_eq!(devices[0].device_id, 0x2484);
    assert_eq!(devices[0].class_code, 0x03);
    assert_eq!(devices[0].bar0, 0xFD00_0000);
}

#[test]
fn vga_writes_are_traced_in_hexadecimal() {
    let t = rustanium::hal::VgaBuffer::write_char(0x10, b'A', 0x0F);
    assert_eq!(t, "[VGA MMU WRITE] Address: 0xB8010 | Char: 'A' | ColorAttr: 0x0F\n");
    let u = rustanium::hal::VgaBuffer::write_char(0, 0xE9, 0xA0);
    assert_eq!(u, "[VGA MMU WRITE] Address: 0xB8000 | Char: '\u{e9}' | ColorAttr: 0xA0\n");
    assert_eq!(rustanium::text::fmt_hex(0), "0");
    assert_eq!(rustanium::text::fmt_hex(255), "FF");
    assert_eq!(rustanium::text::fmt_hex(0x1234ABCD), "1234ABCD");
}

#[test]
fn bounded_text_writer() {
    let mut w = rustanium::text::StrbufWriter::new(vec![0u8; 8]);
    w.write_str("abc");
    assert_eq!(w.as_str(), "abc");
    w.write_str("defghij");
    assert_eq!(w.as_str(), "abcdefgh");
    w.write_str("x");
    assert_eq!(w.as_str(), "abcdefgh");
    let mut cut = rustanium::text::StrbufWriter::new(vec![0u8; 2]);
    cut.write_str("\u{e9}\u{e9}");
    assert_eq!(cut.as_str(), "\u{e9}");
    let mut half = rustanium::text::StrbufWriter::new(vec![0u8; 1]);
    half.write_str("\u{e9}");
    assert_eq!(half.as_str(), "");
}
