use lab_allocator::AllocError;
use lab_allocator::LabByteAllocator;

#[test]
fn fresh_state_defaults() {
    let a = LabByteAllocator::new();
    assert_eq!(a.total_bytes(), 0);
    assert_eq!(a.used_bytes(), 0);
    assert_eq!(a.offset, 2);
    assert_eq!(a.marker_size, 32);
    assert_eq!(a.unfreed_sizes, vec![64, 256, 1024, 4096, 16384, 65536, 262144]);
    for slot in &a.unfreed_blocks {
        assert_eq!(slot.ptr, None);
        assert_eq!(slot.size, 0);
        assert_eq!(slot.align, 0);
    }
}

#[test]
fn init_sets_capacity() {
    let mut a = LabByteAllocator::new();
    a.init(1 << 20);
    assert_eq!(a.total_bytes(), 1 << 20);
    assert_eq!(a.used_bytes(), 0);
    assert_eq!(a.available_bytes(), 1 << 20);
}

#[test]
fn add_memory_accepted_grows_capacity() {
    let mut a = LabByteAllocator::new();
    a.init(4096);
    let r = a.allocate(100, 8, Some(0x1000));
    assert_eq!(r, Ok(0x1000));
    let before_used = a.used_bytes();
    assert_eq!(a.add_memory(2048, true), Ok(()));
    assert_eq!(a.total_bytes(), 4096 + 2048);
    assert_eq!(a.used_bytes(), before_used);
}

#[test]
fn add_memory_rejected_changes_nothing() {
    let mut a = LabByteAllocator::new();
    a.init(4096);
    assert_eq!(a.add_memory(2048, false), Err(AllocError::InvalidParam));
    assert_eq!(a.total_bytes(), 4096);
    assert_eq!(a.used_bytes(), 0);
}

#[test]
fn alloc_without_block_fails_without_effect() {
    let mut a = LabByteAllocator::new();
    a.init(4096);
    let r = a.allocate(1024, 8, None);
    assert_eq!(r, Err(AllocError::NoMemory));
    assert_eq!(a.used_bytes(), 0);
    assert_eq!(a.unfreed_blocks[2].ptr, None);
}

#[test]
fn accounting_alloc_and_dealloc() {
    let mut a = LabByteAllocator::new();
    a.init(1 << 20);
    a.allocate(100, 8, Some(0x1000)).unwrap();
    assert_eq!(a.used_bytes(), 100);
    a.allocate(777, 16, Some(0x2000)).unwrap();
    assert_eq!(a.used_bytes(), 877);
    let freed = a.dealloc(777);
    assert!(freed.is_empty());
    assert_eq!(a.used_bytes(), 100);
    assert_eq!(a.available_bytes(), (1 << 20) - 100);
}

#[test]
fn probe_allocation_is_captured() {
    let mut a = LabByteAllocator::new();
    a.init(1 << 20);
    a.allocate(1024, 8, Some(0x3000)).unwrap();
    // 1024 is the visible probe threshold at table index 2
    assert_eq!(a.unfreed_blocks[2].ptr, Some(0x3000));
    assert_eq!(a.unfreed_blocks[2].size, 1024);
    assert_eq!(a.unfreed_blocks[2].align, 8);
    // hidden thresholds (64, 256) never match while the window starts at 2
    a.allocate(64, 8, Some(0x4000)).unwrap();
    assert_eq!(a.unfreed_blocks[0].ptr, None);
}

#[test]
fn flush_scenario_from_defaults() {
    let mut a = LabByteAllocator::new();
    a.init(1 << 20);
    a.allocate(1024, 8, Some(0x3000)).unwrap();
    a.allocate(4096, 16, Some(0x5000)).unwrap();
    assert_eq!(a.used_bytes(), 5120);
    a.allocate(32, 8, Some(0x9000)).unwrap();
    assert_eq!(a.used_bytes(), 5152);
    let freed = a.dealloc(32);
    // both pending records handed back for release, in slot order
    assert_eq!(freed, vec![(0x3000, 8), (0x5000, 16)]);
    assert_eq!(a.used_bytes(), 0);
    assert_eq!(a.marker_size, 33);
    assert_eq!(a.offset, 2);
    assert_eq!(a.unfreed_sizes, vec![65, 257, 1025, 4097, 16385, 65537, 262145]);
    for slot in &a.unfreed_blocks {
        assert_eq!(slot.ptr, None);
        assert_eq!(slot.size, 0);
        assert_eq!(slot.align, 0);
    }
}

#[test]
fn flush_reclaims_a_run_of_probe_blocks() {
    let mut a = LabByteAllocator::new();
    a.init(1 << 20);
    a.allocate(500, 8, Some(0x100)).unwrap();
    let before = a.used_bytes();
    a.allocate(1024, 8, Some(0x1000)).unwrap();
    a.allocate(16384, 8, Some(0x2000)).unwrap();
    a.allocate(65536, 8, Some(0x3000)).unwrap();
    assert_eq!(a.used_bytes(), before + 1024 + 16384 + 65536);
    a.allocate(32, 8, Some(0x8000)).unwrap();
    let freed = a.dealloc(32);
    assert_eq!(freed, vec![(0x1000, 8), (0x2000, 8), (0x3000, 8)]);
    assert_eq!(a.used_bytes(), before);
}

#[test]
fn duplicate_probe_size_overwrites_the_slot() {
    let mut a = LabByteAllocator::new();
    a.init(1 << 20);
    a.allocate(1024, 8, Some(0x1000)).unwrap();
    a.allocate(1024, 8, Some(0x2000)).unwrap();
    assert_eq!(a.unfreed_blocks[2].ptr, Some(0x2000));
    a.allocate(32, 8, Some(0x8000)).unwrap();
    let freed = a.dealloc(32);
    // only the second block is flushed: the first stays unreclaimed
    assert_eq!(freed, vec![(0x2000, 8)]);
    assert_eq!(a.used_bytes(), 1024);
}

#[test]
fn non_sentinel_release_does_not_flush() {
    let mut a = LabByteAllocator::new();
    a.init(1 << 20);
    a.allocate(1024, 8, Some(0x1000)).unwrap();
    a.allocate(100, 8, Some(0x2000)).unwrap();
    let freed = a.dealloc(100);
    assert!(freed.is_empty());
    assert_eq!(a.marker_size, 32);
    assert_eq!(a.unfreed_blocks[2].ptr, Some(0x1000));
    assert_eq!(a.used_bytes(), 1024);
}

#[test]
fn flush_leaves_nothing_for_the_next_flush() {
    let mut a = LabByteAllocator::new();
    a.init(1 << 20);
    a.allocate(1024, 8, Some(0x1000)).unwrap();
    a.allocate(32, 8, Some(0x8000)).unwrap();
    assert_eq!(a.dealloc(32), vec![(0x1000, 8)]);
    // the sentinel has moved to 33; a release of that size flushes again,
    // but every slot is already clear
    a.allocate(33, 8, Some(0x9000)).unwrap();
    assert_eq!(a.dealloc(33), vec![]);
    assert_eq!(a.marker_size, 34);
    assert_eq!(a.used_bytes(), 0);
}

#[test]
fn thresholds_shift_with_the_sentinel() {
    let mut a = LabByteAllocator::new();
    a.init(1 << 20);
    // first flush: thresholds move to 65, 257, 1025, ...
    a.allocate(32, 8, Some(0x1000)).unwrap();
    a.dealloc(32);
    // 1024 no longer matches anything; 1025 matches table index 2
    a.allocate(1024, 8, Some(0x2000)).unwrap();
    assert_eq!(a.unfreed_blocks[2].ptr, None);
    a.allocate(1025, 8, Some(0x3000)).unwrap();
    assert_eq!(a.unfreed_blocks[2].ptr, Some(0x3000));
    assert_eq!(a.marker_size, 33);
}

#[test]
fn window_opens_exactly_at_sentinel_160() {
    let mut a = LabByteAllocator::new();
    a.init(1 << 24);
    // run flush cycles with neutral sentinel-sized blocks
    for _ in 0..200 {
        let marker = a.marker_size;
        if marker == 160 {
            assert_eq!(a.offset, 2);
        }
        a.allocate(marker, 8, Some(0x1000)).unwrap();
        a.dealloc(marker);
        if a.marker_size <= 160 {
            assert_eq!(a.offset, 2);
        } else {
            assert_eq!(a.offset, 0);
        }
    }
    assert_eq!(a.marker_size, 232);
    assert_eq!(a.offset, 0);
    // with the window fully open, the smallest threshold now matches:
    // thresholds have shifted by 200, so 64 + 200 = 264 lands in slot 0
    a.allocate(264, 8, Some(0x2000)).unwrap();
    assert_eq!(a.unfreed_blocks[0].ptr, Some(0x2000));
    let marker = a.marker_size;
    a.allocate(marker, 8, Some(0x3000)).unwrap();
    let freed = a.dealloc(marker);
    assert_eq!(freed, vec![(0x2000, 8)]);
}
