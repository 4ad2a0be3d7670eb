use megadrive_rt::heap::MDSpecializeAlloc;

#[test]
fn heap_scenario_carve_fail_free_coalesce() {
    // Heap of 1024 bytes: allocating 100 bytes at 2-byte alignment succeeds
    // (carved from the tail of the root block), 2000 bytes then fails,
    // freeing the 100-byte block and allocating 1022 bytes succeeds because
    // the scan coalesces the freed tail back into the root run.
    let mut h = MDSpecializeAlloc::new(1024);
    h.init();
    let p = h.allocate(100, 2);
    assert_eq!(p, Some(924));
    assert_eq!(h.allocate(2000, 2), None);
    h.deallocate(924, 100, 2);
    let q = h.allocate(1022, 2);
    assert_eq!(q, Some(2));
}

#[test]
fn allocate_carves_from_tail() {
    // First fit by block order, carve from the block's end.
    let mut h = MDSpecializeAlloc::new(64);
    h.init();
    // Root data spans bytes 2..64; a 10-byte request lands at 54.
    assert_eq!(h.allocate(10, 2), Some(54));
    // The next request carves from the remaining head block's tail.
    assert_eq!(h.allocate(10, 2), Some(42));
}

#[test]
fn allocate_respects_alignment() {
    let mut h = MDSpecializeAlloc::new(128);
    h.init();
    let p = h.allocate(10, 16).unwrap();
    assert_eq!(p % 16, 0);
    assert_eq!(p, 112);
    // Odd alignment is widened to keep word granularity.
    let q = h.allocate(3, 1).unwrap();
    assert_eq!(q % 2, 0);
}

#[test]
fn allocate_zero_heap_exhaustion() {
    let mut h = MDSpecializeAlloc::new(16);
    h.init();
    // Root data is 14 bytes; a 14-byte request takes the whole block.
    assert_eq!(h.allocate(14, 2), Some(2));
    assert_eq!(h.allocate(2, 2), None);
}

#[test]
fn deallocate_is_lazy_no_eager_merge() {
    // Freeing alone does not merge: two freed neighbours only satisfy a
    // request spanning both once an allocation scan has run.
    let mut h = MDSpecializeAlloc::new(64);
    h.init();
    let a = h.allocate(20, 2).unwrap();
    let b = h.allocate(20, 2).unwrap();
    assert_eq!(a, 44);
    assert_eq!(b, 22);
    h.deallocate(a, 20, 2);
    h.deallocate(b, 20, 2);
    // The scan merges the whole heap back into one run: 62 bytes fit again.
    assert_eq!(h.allocate(62, 2), Some(2));
}

#[test]
fn allocate_zeroed_zeroes_the_block() {
    let mut h = MDSpecializeAlloc::new(64);
    h.init();
    let p = h.allocate_zeroed(12, 2).unwrap();
    for i in 0..12 {
        assert_eq!(h.read_byte(p + i), 0);
    }
}

#[test]
fn reallocate_moves_and_frees() {
    let mut h = MDSpecializeAlloc::new(64);
    h.init();
    let p = h.allocate_zeroed(10, 2).unwrap();
    assert_eq!(p, 54);
    let q = h.reallocate(p, 10, 2, 20).unwrap();
    assert_eq!(q, 32);
    for i in 0..10 {
        assert_eq!(h.read_byte(q + i), 0);
    }
    // The head run still hosts what fits in it.
    assert_eq!(h.allocate(26, 2), Some(4));
}

#[test]
fn reallocate_failure_keeps_old_block() {
    let mut h = MDSpecializeAlloc::new(64);
    h.init();
    let p = h.allocate(10, 2).unwrap();
    // No free run can host 60 bytes: the old allocation stays usable.
    assert_eq!(h.reallocate(p, 10, 2, 60), None);
    // The old block is still allocated, so a fresh scan cannot reuse it.
    assert_eq!(h.allocate(52, 2), None);
    assert_eq!(h.allocate(40, 2), Some(12));
}

#[test]
fn fragmentation_fails_despite_total_free() {
    // Satisfaction is tested within a single contiguous free run only:
    // total free bytes may exceed the request while no run hosts it.
    let mut h = MDSpecializeAlloc::new(64);
    h.init();
    let a = h.allocate(10, 2).unwrap(); // at 54
    let b = h.allocate(10, 2).unwrap(); // at 42
    let _c = h.allocate(10, 2).unwrap(); // at 30
    h.deallocate(a, 10, 2);
    h.deallocate(b, 10, 2);
    // 26 head bytes + two 10-byte tails are free (plus absorbed headers),
    // yet a 40-byte request fails: the used block at 30 splits the runs.
    assert_eq!(h.allocate(40, 2), None);
}

#[test]
fn block_headers_expose_the_partition() {
    let mut h = MDSpecializeAlloc::new(64);
    h.init();
    let root = h.header_at(0);
    assert!(root.is_free());
    assert_eq!(root.size(), 62);
    assert_eq!(root.next(0, &h), None);
    let p = h.allocate(10, 2).unwrap();
    assert_eq!(p, 54);
    let head = h.header_at(0);
    assert!(head.is_free());
    assert_eq!(head.size(), 50);
    assert_eq!(head.next(0, &h), Some(52));
    let used = h.header_at(52);
    assert!(!used.is_free());
    assert_eq!(used.size(), 10);
    assert_eq!(used.next(52, &h), None);
}
