use siliconmon::collector::{Collector, Step};
use siliconmon::memory::{get_memory_metrics, used_percent, MemoryMetrics, MemoryReading, VmPageCounts};

fn hist(c: &siliconmon::series::TimeSeries) -> Vec<(u64, u64)> {
    c.entries().iter().copied().collect()
}

#[test]
fn used_percent_follows_the_formula() {
    assert_eq!(used_percent(8, 2, 16, 4), 5000);
    assert_eq!(used_percent(1, 0, 3, 0), 3333);
    assert_eq!(used_percent(3, 1, 4, 0), 10000);
}

#[test]
fn used_percent_is_zero_without_memory() {
    assert_eq!(used_percent(0, 0, 0, 0), 0);
    assert_eq!(used_percent(5, 5, 0, 0), 0);
}

#[test]
fn memory_totals_are_held_to_the_largest_value() {
    let r = MemoryReading {
        vm: Some(VmPageCounts { active: u32::MAX, wired: u32::MAX, compressed: u32::MAX }),
        page_size: u64::MAX,
        total: Some(u64::MAX),
        swap: Some((5, 5)),
    };
    let m = get_memory_metrics(&r);
    assert_eq!((m.total, m.used), (u64::MAX, u64::MAX));
}

#[test]
fn used_percent_saturates() {
    assert_eq!(used_percent(u64::MAX, u64::MAX, 1, 0), u64::MAX);
}

fn reading() -> MemoryReading {
    MemoryReading {
        vm: Some(VmPageCounts { active: 100, wired: 50, compressed: 10 }),
        page_size: 16384,
        total: Some(17179869184),
        swap: Some((2147483648, 1073741824)),
    }
}

#[test]
fn memory_figures_from_a_reading() {
    let m = get_memory_metrics(&reading());
    assert_eq!(m.total, 17179869184 + 2147483648);
    assert_eq!(m.used, 160 * 16384 + 1073741824);
    assert_eq!(m.swap_total, 2147483648);
    assert_eq!(m.swap_used, 1073741824);
    assert_eq!(m.used_percent, 556);
    assert_eq!(m.used_percent_history.len(), 0);
}

#[test]
fn failed_queries_give_zero_figures() {
    let mut r = reading();
    r.vm = None;
    let m = get_memory_metrics(&r);
    assert_eq!((m.total, m.used, m.swap_total, m.swap_used, m.used_percent), (0, 0, 0, 0, 0));
    let mut r = reading();
    r.total = None;
    let m = get_memory_metrics(&r);
    assert_eq!((m.total, m.used, m.swap_total, m.swap_used, m.used_percent), (0, 0, 0, 0, 0));
    let mut r = reading();
    r.swap = None;
    let m = get_memory_metrics(&r);
    assert_eq!((m.swap_total, m.swap_used), (0, 0));
    assert_eq!((m.total, m.used), (17179869184, 160 * 16384));
    assert_eq!(m.used_percent, 160 * 16384 * 10000 / 17179869184);
}

#[test]
fn memory_window_is_carried_over() {
    let first = MemoryMetrics::new(None, &reading(), 1_000);
    assert_eq!(hist(&first.used_percent_history), vec![(1_000, 556)]);
    assert_eq!(first.average_used_percent(), 556);
    let mut r = reading();
    r.swap = Some((2147483648, 0));
    let second = MemoryMetrics::new(Some(first), &r, 2_000);
    assert_eq!(second.used_percent_history.len(), 2);
    assert_eq!(hist(&second.used_percent_history)[1], (2_000, second.used_percent));
    assert_eq!(second.average_used_percent(), (556 + second.used_percent) / 2);
}

#[test]
fn step_skips_failed_reads() {
    let mut c = Collector::new();
    assert!(c.step(true, None, 0) == Step::Skip);
    assert_eq!(c.cpu.e_cluster_active_history.len(), 0);
}

#[test]
fn step_stops_when_cancelled() {
    let mut c = Collector::new();
    assert!(c.step(false, Some("E-Cluster HW active residency: 42.50%"), 0) == Step::Stop);
    assert_eq!(c.cpu.e_cluster_active, 0);
    assert_eq!(c.cpu.e_cluster_active_history.len(), 0);
}

#[test]
fn step_reads_and_windows_a_line() {
    let mut c = Collector::new();
    assert!(c.step(true, Some("E-Cluster HW active residency: 42.50%"), 1_000) == Step::Publish);
    assert_eq!(c.cpu.e_cluster_active, 42);
    assert_eq!(hist(&c.cpu.e_cluster_active_history), vec![(1_000, 4200)]);
    assert_eq!(hist(&c.cpu.p_cluster_active_history), vec![(1_000, 0)]);
    assert_eq!(hist(&c.cpu.ane_util_history), vec![(1_000, 0)]);
    assert_eq!(hist(&c.gpu.active_history), vec![(1_000, 0)]);
    c.process_line("GPU HW active residency: 50.00%", 2_000);
    assert_eq!(hist(&c.gpu.active_history), vec![(1_000, 0), (2_000, 5000)]);
    assert_eq!(c.gpu.average_active(), 2500);
    assert_eq!(c.cpu.average_e_cluster_active(), 4200);
    c.process_line("out: 1 packets/s, 2 bytes/s", 200_000);
    assert_eq!(c.netdisk.out_bytes_per_sec, 2000);
    assert_eq!(hist(&c.cpu.e_cluster_active_history), vec![(200_000, 4200)]);
}
