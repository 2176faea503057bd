use siliconmon::collector::Collector;
use siliconmon::cpu::{ane_utilization, parse_cpu_metrics, CPUMetrics};

#[test]
fn ane_power_line_sets_watts_and_utilization() {
    let mut m = CPUMetrics::new();
    parse_cpu_metrics("ANE Power: 500 mW", &mut m);
    assert_eq!(m.ane_uw, 500_000);
    assert_eq!(m.ane_uw as f64 / 1_000_000.0, 0.5);
    assert_eq!(ane_utilization(m.ane_uw), 625);
    let mut c = Collector::new();
    c.process_line("ANE Power: 500 mW", 0);
    let last = c.cpu.ane_util_history.entries().back().copied();
    assert_eq!(last, Some((0, 625)));
    assert_eq!(c.cpu.average_ane_util() as f64 / 100.0, 6.25);
}

#[test]
fn cluster_lines_in_order_leave_frequency_sticky() {
    let mut m = CPUMetrics::new();
    parse_cpu_metrics("E-Cluster HW active residency: 42.50%", &mut m);
    parse_cpu_metrics("E-Cluster HW active frequency: 1500 MHz", &mut m);
    parse_cpu_metrics("P-Cluster HW active residency: 10.00%", &mut m);
    assert_eq!(m.e_cluster_active, 42);
    assert_eq!(m.e_cluster_freq_mhz, 1500);
    assert_eq!(m.p_cluster_active, 10);
    assert_eq!(m.p_cluster_freq_mhz, 0);
}

#[test]
fn cluster_lines_through_the_producer() {
    let mut c = Collector::new();
    c.process_line("E-Cluster HW active residency: 42.50%", 0);
    c.process_line("E-Cluster HW active frequency: 1500 MHz", 1_000);
    c.process_line("P-Cluster HW active residency: 10.00%", 2_000);
    assert_eq!(c.cpu.e_cluster_active, 42);
    assert_eq!(c.cpu.e_cluster_freq_mhz, 1500);
    assert_eq!(c.cpu.p_cluster_active, 10);
    assert_eq!(c.cpu.p_cluster_freq_mhz, 0);
    assert_eq!(c.cpu.average_e_cluster_active(), 4200);
    assert_eq!(c.cpu.average_p_cluster_active(), 333);
}
