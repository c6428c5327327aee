use sysinfo::cpu::{core_usage_bp, process_cpu_share, u64_decimal, Processor};
use sysinfo::system::{MemoryReadings, SwapUsage, System, VmStats};
use sysinfo::uptime_seconds;

#[test]
fn process_share_is_exact_ratio() {
    // (150 - 50) ticks over (200 - 100) time units: 100% of a core.
    let s = process_cpu_share(100, 50, 200, 150);
    assert_eq!(s.ticks, 100);
    assert_eq!(s.elapsed, 100);
    assert_eq!(s.ticks * 100 / s.elapsed, 100);
}

#[test]
fn process_share_may_exceed_one_core() {
    // a multi-threaded task: 300 ticks in 100 time units is 300%.
    let s = process_cpu_share(0, 0, 100, 300);
    assert_eq!(s.ticks * 100 / s.elapsed, 300);
}

#[test]
fn process_share_counter_regression_is_zero() {
    let s = process_cpu_share(100, 500, 200, 400);
    assert_eq!(s.ticks, 0);
    assert_eq!(s.elapsed, 100);
}

#[test]
fn process_share_clock_regression_is_zero() {
    let s = process_cpu_share(200, 0, 200, 50);
    assert_eq!(s.ticks, 0);
    assert!(s.elapsed > 0);
}

#[test]
fn core_usage_from_deltas() {
    // layout per core: user, system, idle, nice
    let prev = vec![0u32, 0, 0, 0];
    let cur = vec![25u32, 25, 25, 25];
    // in_use = 25 + 25 + 25 = 75, total = 100 -> 7500 hundredths
    assert_eq!(core_usage_bp(&prev, &cur, 0), 7500);
}

#[test]
fn core_usage_idle_core_is_zero() {
    let prev = vec![10u32, 10, 10, 10];
    let cur = vec![10u32, 10, 90, 10];
    assert_eq!(core_usage_bp(&prev, &cur, 0), 0);
}

#[test]
fn core_usage_no_ticks_is_zero() {
    let prev = vec![5u32, 5, 5, 5];
    let cur = vec![5u32, 5, 5, 5];
    assert_eq!(core_usage_bp(&prev, &cur, 0), 0);
}

#[test]
fn aggregate_is_mean_of_core_shares() {
    let mut s = System::new(4);
    s.refresh_cpu(1, vec![0u32; 8]);
    assert_eq!(s.processors.len(), 3);
    // core 0: in_use 20, idle 20 -> 5000; core 1: in_use 50, idle 10 -> 8333
    s.refresh_cpu(2, vec![10, 10, 20, 0, 30, 10, 10, 10]);
    let bp1 = s.processors[1].usage_bp;
    let bp2 = s.processors[2].usage_bp;
    assert_eq!(bp1, 5000);
    assert_eq!(bp2, 8333);
    assert_eq!(s.aggregate.sum_bp, bp1 + bp2);
    assert_eq!(s.aggregate.count, 2);
    assert_eq!(s.processors[0].usage_bp, (bp1 + bp2) / 2);
}

#[test]
fn aggregate_single_core_equals_that_core() {
    let mut s = System::new(4);
    s.refresh_cpu(1, vec![0u32; 4]);
    s.refresh_cpu(2, vec![40, 0, 40, 0]);
    assert_eq!(s.processors[1].usage_bp, 5000);
    assert_eq!(s.aggregate.sum_bp, 5000);
    assert_eq!(s.aggregate.count, 1);
    assert_eq!(s.processors[0].usage_bp, 5000);
}

#[test]
fn first_cpu_round_reads_absolute_counters() {
    let mut s = System::new(4);
    s.refresh_cpu(7, vec![30, 30, 20, 20]);
    // in_use = 80, total = 100
    assert_eq!(s.processors.len(), 2);
    assert_eq!(s.processors[1].usage_bp, 8000);
    assert_eq!(s.uptime, 7);
}

#[test]
fn processor_labels_are_decimal() {
    let p = Processor { index: 0, usage_bp: 0 };
    assert_eq!(p.label(), b"0".to_vec());
    let q = Processor { index: 12, usage_bp: 0 };
    assert_eq!(q.label(), b"12".to_vec());
    assert_eq!(u64_decimal(105), b"105".to_vec());
}

#[test]
fn uptime_is_clock_difference() {
    assert_eq!(uptime_seconds(100, 350), 250);
    assert_eq!(uptime_seconds(350, 100), 0);
}

#[test]
fn memory_refresh_computes_free_and_swap() {
    let mut s = System::new(4);
    let r = MemoryReadings {
        uptime: 99,
        swap: Some(SwapUsage { total_bytes: 10240, avail_bytes: 4096 }),
        mem_total_bytes: Some(1048576),
        vm: Some(VmStats { active: 100, inactive: 50, wire: 30, speculative: 20, purgeable: 10 }),
    };
    s.refresh_memory(&r);
    assert_eq!(s.get_uptime(), 99);
    assert_eq!(s.get_total_swap(), 10);
    assert_eq!(s.get_free_swap(), 4);
    assert_eq!(s.get_used_swap(), 6);
    assert_eq!(s.get_total_memory(), 1024);
    // (100 + 50 + 30 + 20 - 10) pages * 4 KiB = 760 KiB held
    assert_eq!(s.get_free_memory(), 1024 - 760);
    assert_eq!(s.get_used_memory(), 760);
}

#[test]
fn memory_refresh_without_readings_changes_nothing_but_uptime() {
    let mut s = System::new(4);
    let r = MemoryReadings { uptime: 1, swap: None, mem_total_bytes: None, vm: None };
    s.refresh_memory(&r);
    assert_eq!(s.get_total_memory(), 0);
    assert_eq!(s.get_free_memory(), 0);
    assert_eq!(s.get_total_swap(), 0);
}

#[test]
fn memory_total_is_queried_only_once() {
    let mut s = System::new(4);
    let r1 = MemoryReadings {
        uptime: 1,
        swap: None,
        mem_total_bytes: Some(2048),
        vm: None,
    };
    s.refresh_memory(&r1);
    assert_eq!(s.get_total_memory(), 2);
    let r2 = MemoryReadings {
        uptime: 2,
        swap: None,
        mem_total_bytes: Some(999999),
        vm: None,
    };
    s.refresh_memory(&r2);
    assert_eq!(s.get_total_memory(), 2);
}
