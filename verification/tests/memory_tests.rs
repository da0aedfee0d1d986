use state_engine::errors::ErrorKind;
use state_engine::memory::LeakType;
use state_engine::memory::MemoryManager;
use state_engine::memory::MemoryStats;

#[test]
fn first_fit_reuses_coalesced_region() {
    let mut m = MemoryManager::new();
    m.allocate_container("x", 1024, 0).unwrap();
    assert_eq!(m.allocate_block("x", 512, 1).unwrap(), 0);
    assert_eq!(m.allocate_block("x", 256, 2).unwrap(), 512);
    m.deallocate_block("x", 0).unwrap();
    assert_eq!(m.allocate_block("x", 400, 3).unwrap(), 0);
}

#[test]
fn deallocate_coalesces_both_sides() {
    let mut m = MemoryManager::new();
    m.allocate_container("c", 300, 0).unwrap();
    let a = m.allocate_block("c", 100, 1).unwrap();
    let b = m.allocate_block("c", 100, 2).unwrap();
    let c = m.allocate_block("c", 100, 3).unwrap();
    assert_eq!((a, b, c), (0, 100, 200));
    m.deallocate_block("c", 0).unwrap();
    m.deallocate_block("c", 200).unwrap();
    // Freeing the middle block must merge all three into one free block.
    m.deallocate_block("c", 100).unwrap();
    let st = m.get_pool_stats("c").unwrap();
    assert_eq!(st.free_blocks, 1);
    assert_eq!(st.used_size, 0);
    assert_eq!(st.free_size, 300);
    // And the whole pool is one first-fit candidate again.
    assert_eq!(m.allocate_block("c", 300, 4).unwrap(), 0);
}

#[test]
fn pool_accounting_partitions_the_span() {
    let mut m = MemoryManager::new();
    m.allocate_container("p", 1000, 0).unwrap();
    m.allocate_block("p", 300, 1).unwrap();
    m.allocate_block("p", 200, 2).unwrap();
    let st = m.get_pool_stats("p").unwrap();
    assert_eq!(st.total_size, 1000);
    assert_eq!(st.used_size, 500);
    assert_eq!(st.free_size, 500);
}

#[test]
fn out_of_memory_when_nothing_fits() {
    let mut m = MemoryManager::new();
    m.allocate_container("s", 100, 0).unwrap();
    m.allocate_block("s", 60, 1).unwrap();
    assert_eq!(m.allocate_block("s", 60, 2).unwrap_err(), ErrorKind::QuotaExceeded);
}

#[test]
fn duplicate_container_rejected() {
    let mut m = MemoryManager::new();
    m.allocate_container("d", 10, 0).unwrap();
    assert_eq!(m.allocate_container("d", 10, 0).unwrap_err(), ErrorKind::Duplicate);
}

#[test]
fn global_limit_enforced() {
    let mut m = MemoryManager::new();
    m.set_global_limit(100);
    m.allocate_container("one", 80, 0).unwrap();
    assert_eq!(
        m.allocate_container("two", 30, 0).unwrap_err(),
        ErrorKind::QuotaExceeded
    );
    m.deallocate_container("one");
    m.allocate_container("two", 30, 0).unwrap();
}

#[test]
fn deallocate_unknown_offset_not_found() {
    let mut m = MemoryManager::new();
    m.allocate_container("u", 100, 0).unwrap();
    assert_eq!(m.deallocate_block("u", 7).unwrap_err(), ErrorKind::NotFound);
}

#[test]
fn block_ops_on_missing_container_not_found() {
    let mut m = MemoryManager::new();
    assert_eq!(m.allocate_block("no", 1, 0).unwrap_err(), ErrorKind::NotFound);
    assert_eq!(m.deallocate_block("no", 0).unwrap_err(), ErrorKind::NotFound);
}

#[test]
fn leak_report_on_allocation_imbalance() {
    let mut m = MemoryManager::new();
    m.allocate_container("l", 1000, 0).unwrap();
    let o1 = m.allocate_block("l", 10, 1).unwrap();
    m.allocate_block("l", 10, 2).unwrap();
    m.allocate_block("l", 10, 3).unwrap();
    m.deallocate_block("l", o1).unwrap();
    // Three allocations against one deallocation: ratio above two.
    let reports = m.detect_leaks(10);
    assert!(reports
        .iter()
        .any(|r| r.container_id == "l" && r.leak_type == LeakType::AllocationImbalance));
}

#[test]
fn leak_report_when_no_recent_sweep() {
    let mut m = MemoryManager::new();
    m.allocate_container("g", 1000, 0).unwrap();
    m.allocate_block("g", 10, 1).unwrap();
    // One hour plus a millisecond after the creation-time sweep stamp.
    let reports = m.detect_leaks(3_600_002);
    assert!(reports
        .iter()
        .any(|r| r.container_id == "g" && r.leak_type == LeakType::NoRecentGC));
    // Sweeping clears the finding.
    m.gc_container("g", 3_600_002).unwrap();
    let after = m.detect_leaks(3_600_003);
    assert!(!after
        .iter()
        .any(|r| r.container_id == "g" && r.leak_type == LeakType::NoRecentGC));
}

#[test]
fn stats_percentages() {
    let mut s = MemoryStats::new(200, 0);
    s.update_usage(50);
    assert_eq!(s.utilization_percent(), 25);
    s.update_usage(25);
    // Peak stays at 50, so fragmentation is half.
    assert_eq!(s.fragmentation_percent(), 50);
}

#[test]
fn gc_threshold_clamped() {
    let mut m = MemoryManager::new();
    m.configure_gc(5, true);
    assert_eq!(m.gc_threshold_percent, 10);
    m.configure_gc(99, false);
    assert_eq!(m.gc_threshold_percent, 95);
    assert!(!m.auto_gc_enabled);
}

#[test]
fn global_stats_sum_the_containers() {
    let mut m = MemoryManager::new();
    m.allocate_container("a", 100, 0).unwrap();
    m.allocate_container("b", 200, 0).unwrap();
    m.allocate_block("a", 40, 1).unwrap();
    m.allocate_block("b", 60, 2).unwrap();
    m.gc_container("a", 3).unwrap();
    let g = m.get_global_stats();
    assert_eq!(g.total_allocated, 300);
    assert_eq!(g.container_count, 2);
    assert_eq!(g.total_used, 100);
    assert_eq!(g.total_allocations, 2);
    assert_eq!(g.total_gc_runs, 1);
}

#[test]
fn pool_stats_direct_and_via_manager_agree() {
    let mut m = MemoryManager::new();
    m.allocate_container("z", 100, 0).unwrap();
    m.allocate_block("z", 30, 1).unwrap();
    let via_manager = m.get_pool_stats("z").unwrap();
    let direct = m.entries[0].pool.get_stats();
    assert_eq!(via_manager.used_size, direct.used_size);
    assert_eq!(via_manager.free_blocks, direct.free_blocks);
    assert_eq!(direct.total_blocks, 2);
}
