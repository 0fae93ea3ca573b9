use rustscout::metrics::MemoryMetrics;

#[test]
fn test_memory_allocation_tracking() {
    let mut metrics = MemoryMetrics::new();
    metrics.record_allocation(1000);
    metrics.record_allocation(500);
    let stats = metrics.get_stats();
    assert_eq!(stats.total_allocated, 1500);
    assert_eq!(stats.peak_allocated, 1500);

    metrics.record_deallocation(500);
    let stats = metrics.get_stats();
    assert_eq!(stats.total_allocated, 1000);
    assert_eq!(stats.peak_allocated, 1500);
}

#[test]
fn test_mmap_tracking() {
    let mut metrics = MemoryMetrics::new();
    metrics.record_mmap(5000);
    metrics.record_mmap(3000);
    let stats = metrics.get_stats();
    assert_eq!(stats.mmap_allocated, 8000);

    metrics.record_munmap(3000);
    let stats = metrics.get_stats();
    assert_eq!(stats.mmap_allocated, 5000);
}

#[test]
fn test_cache_metrics() {
    let mut metrics = MemoryMetrics::new();
    metrics.record_cache_operation(100, true);
    let stats = metrics.get_stats();
    assert_eq!(stats.cache_size, 100);
    assert_eq!(stats.cache_hits, 1);
    assert_eq!(stats.cache_misses, 0);

    metrics.record_cache_operation(50, false);
    let stats = metrics.get_stats();
    assert_eq!(stats.cache_size, 150);
    assert_eq!(stats.cache_hits, 1);
    assert_eq!(stats.cache_misses, 1);
}

#[test]
fn test_file_processing_tracking() {
    let mut metrics = MemoryMetrics::new();
    metrics.record_file_processing(1000);
    metrics.record_file_processing(100000);
    metrics.record_file_processing(20_000_000);
    let stats = metrics.get_stats();
    assert_eq!(stats.small_files, 1);
    assert_eq!(stats.buffered_files, 1);
    assert_eq!(stats.mmap_files, 1);
}

#[test]
fn peak_never_below_total() {
    let mut metrics = MemoryMetrics::new();
    metrics.record_allocation(10);
    metrics.record_deallocation(4);
    metrics.record_allocation(3);
    let stats = metrics.get_stats();
    assert_eq!(stats.total_allocated, 9);
    assert_eq!(stats.peak_allocated, 10);
    assert!(stats.peak_allocated >= stats.total_allocated);
}

#[test]
fn cache_shrinks_with_negative_delta() {
    let mut metrics = MemoryMetrics::new();
    metrics.record_cache_operation(100, true);
    metrics.record_cache_operation(-40, false);
    assert_eq!(metrics.get_stats().cache_size, 60);
    metrics.record_cache_operation(-100, false);
    assert_eq!(metrics.get_stats().cache_size, u64::MAX - 39);
    assert_eq!(metrics.get_stats().cache_misses, 2);
}

#[test]
fn log_stats_mentions_counters() {
    let mut metrics = MemoryMetrics::new();
    metrics.record_allocation(2048);
    metrics.record_cache_operation(10, true);
    metrics.record_file_processing(5);
    let line = metrics.log_stats();
    assert_eq!(
        line,
        "Memory usage stats:\nTotal allocated: 2048 bytes\nPeak allocated: 2048 bytes\nMemory mapped: 0 bytes\nCache size: 10 bytes\nCache hits/misses: 1/0\nFiles processed (small/buffered/mmap): 1/0/0"
    );
}
