use rustanium::allocator::{MemoryAllocator, PageStatus, PAGE_SIZE, TOTAL_PAGES};
use rustanium::ecc::{decode, encode, DecodeResult};
use rustanium::scrubber::MemoryScrubber;

#[test]
fn test_no_error() {
    for val in 0..=255 {
        let encoded = encode(val);
        assert_eq!(decode(encoded), DecodeResult::NoError(val));
    }
}

#[test]
fn test_single_bit_flip_correction() {
    let val = 0xA5;
    let encoded = encode(val);
    for i in 0..13 {
        let corrupted = encoded ^ (1 << i);
        match decode(corrupted) {
            DecodeResult::Corrected(decoded, flipped_bit) => {
                assert_eq!(decoded, val, "Correction failed for bit {}", i + 1);
                assert_eq!(flipped_bit, i + 1, "Incorrect bit position reported");
            }
            other => panic!("Expected Corrected, got {:?}", other),
        }
    }
}

#[test]
fn test_double_bit_flip_detection() {
    let val = 0x3C;
    let encoded = encode(val);
    for i in 0..13 {
        for j in (i + 1)..13 {
            let corrupted = encoded ^ (1 << i) ^ (1 << j);
            assert_eq!(
                decode(corrupted),
                DecodeResult::Uncorrectable,
                "Failed to detect double bit flip at {}, {}",
                i + 1,
                j + 1
            );
        }
    }
}

#[test]
fn test_allocation_lifecycle() {
    let mut allocator = MemoryAllocator::new();
    let pid = 42;
    let frame_idx = allocator.allocate_page(pid).expect("Should allocate");
    assert_eq!(allocator.allocation_map[frame_idx], Some(pid));
    allocator.deallocate_page(frame_idx).unwrap();
    assert_eq!(allocator.allocation_map[frame_idx], None);
}

#[test]
fn test_single_bit_flip_repair_on_read() {
    let mut allocator = MemoryAllocator::new();
    let pid = 1;
    let frame_idx = allocator.allocate_page(pid).unwrap();
    allocator.frames[frame_idx].write_byte(10, 0xAA).unwrap();
    allocator.inject_bit_flip(frame_idx, 10, 2).unwrap();
    let result = allocator.frames[frame_idx].read_byte(10);
    assert!(result.is_ok());
    let (val, event) = result.unwrap();
    assert_eq!(val, 0xAA);
    let ev = event.expect("Expected a correction event");
    assert_eq!(ev.frame_index, frame_idx);
    assert_eq!(ev.offset, 10);
    assert!(matches!(allocator.frames[frame_idx].status, PageStatus::Recovered { corrected_count: 1 }));
}

#[test]
fn test_double_bit_flip_leads_to_quarantine_on_read() {
    let mut allocator = MemoryAllocator::new();
    let pid = 1;
    let frame_idx = allocator.allocate_page(pid).unwrap();
    allocator.frames[frame_idx].write_byte(5, 0x55).unwrap();
    allocator.inject_bit_flip(frame_idx, 5, 0).unwrap();
    allocator.inject_bit_flip(frame_idx, 5, 4).unwrap();
    let result = allocator.frames[frame_idx].read_byte(5);
    assert_eq!(result, Err(frame_idx));
    assert_eq!(allocator.frames[frame_idx].status, PageStatus::Quarantined);
}

#[test]
fn test_relocation_on_quarantine() {
    let mut allocator = MemoryAllocator::new();
    let pid = 99;
    let damaged_idx = allocator.allocate_page(pid).unwrap();
    allocator.frames[damaged_idx].write_byte(0, 0x11).unwrap();
    allocator.frames[damaged_idx].write_byte(1, 0x22).unwrap();
    let new_idx = allocator.relocate_and_quarantine(damaged_idx).unwrap();
    assert_ne!(damaged_idx, new_idx);
    assert_eq!(allocator.frames[damaged_idx].status, PageStatus::Quarantined);
    assert_eq!(allocator.allocation_map[damaged_idx], None);
    assert_eq!(allocator.allocation_map[new_idx], Some(pid));
    let (val0, _) = allocator.frames[new_idx].read_byte(0).unwrap();
    let (val1, _) = allocator.frames[new_idx].read_byte(1).unwrap();
    assert_eq!(val0, 0x11);
    assert_eq!(val1, 0x22);
}

#[test]
fn test_scrubber_sweeps_and_corrects() {
    let mut allocator = MemoryAllocator::new();
    let pid = 25;
    let frame_idx = allocator.allocate_page(pid).unwrap();
    allocator.frames[frame_idx].write_byte(0, 0x11).unwrap();
    allocator.frames[frame_idx].write_byte(1, 0x22).unwrap();
    allocator.inject_bit_flip(frame_idx, 0, 1).unwrap();
    allocator.inject_bit_flip(frame_idx, 1, 5).unwrap();
    let report = MemoryScrubber::sweep(&mut allocator);
    assert_eq!(report.pages_checked, 1);
    assert_eq!(report.corrections.len(), 2);
    assert_eq!(report.relocations.len(), 0);
    let (val0, _) = allocator.frames[frame_idx].read_byte(0).unwrap();
    let (val1, _) = allocator.frames[frame_idx].read_byte(1).unwrap();
    assert_eq!(val0, 0x11);
    assert_eq!(val1, 0x22);
}

#[test]
fn test_scrubber_detects_double_flip_and_relocates() {
    let mut allocator = MemoryAllocator::new();
    let pid = 7;
    let damaged_idx = allocator.allocate_page(pid).unwrap();
    allocator.frames[damaged_idx].write_byte(4, 0xAA).unwrap();
    allocator.inject_bit_flip(damaged_idx, 4, 1).unwrap();
    allocator.inject_bit_flip(damaged_idx, 4, 3).unwrap();
    let report = MemoryScrubber::sweep(&mut allocator);
    assert_eq!(report.pages_checked, 1);
    assert_eq!(report.corrections.len(), 0);
    assert_eq!(report.relocations.len(), 1);
    let (old_idx, new_idx) = report.relocations[0];
    assert_eq!(old_idx, damaged_idx);
    assert_eq!(allocator.frames[old_idx].status, PageStatus::Quarantined);
    assert_eq!(allocator.allocation_map[new_idx], Some(pid));
}

#[test]
fn encode_gives_known_codewords() {
    assert_eq!(encode(0), 0);
    assert_eq!(decode(encode(0xFF)), DecodeResult::NoError(0xFF));
    assert_ne!(encode(1), 1);
}

#[test]
fn allocation_is_first_fit_and_runs_out() {
    let mut allocator = MemoryAllocator::new();
    for i in 0..TOTAL_PAGES {
        assert_eq!(allocator.allocate_page(3), Some(i));
    }
    assert_eq!(allocator.allocate_page(3), None);
    allocator.deallocate_page(17).unwrap();
    assert_eq!(allocator.allocate_page(4), Some(17));
}

#[test]
fn out_of_range_requests_are_refused() {
    let mut allocator = MemoryAllocator::new();
    assert!(allocator.deallocate_page(TOTAL_PAGES).is_err());
    assert!(allocator.inject_bit_flip(TOTAL_PAGES, 0, 0).is_err());
    assert!(allocator.inject_bit_flip(0, PAGE_SIZE, 0).is_err());
    assert!(allocator.inject_bit_flip(0, 0, 16).is_err());
    assert!(allocator.frames[0].write_byte(PAGE_SIZE, 1).is_err());
}

#[test]
fn quarantined_frame_refuses_writes_and_is_skipped() {
    let mut allocator = MemoryAllocator::new();
    let f = allocator.allocate_page(9).unwrap();
    let moved = allocator.relocate_and_quarantine(f).unwrap();
    assert!(allocator.frames[f].write_byte(0, 1).is_err());
    assert_ne!(allocator.allocate_page(9), Some(f));
    assert_eq!(allocator.allocation_map[moved], Some(9));
}

#[test]
fn relocation_without_free_frame_fails() {
    let mut allocator = MemoryAllocator::new();
    for _ in 0..TOTAL_PAGES {
        allocator.allocate_page(5).unwrap();
    }
    assert!(allocator.relocate_and_quarantine(0).is_err());
}
