use regex::Regex;
use siliconmon::cpu::{ane_utilization, parse_cpu_metrics, CPUMetrics};
use siliconmon::gpu::{parse_gpu_metrics, GPUMetrics};
use siliconmon::netdisk::{parse_netdisk_metrics, NetDiskMetrics};

fn cpu_after(lines: &[&str]) -> CPUMetrics {
    let mut m = CPUMetrics::new();
    for l in lines {
        parse_cpu_metrics(l, &mut m);
    }
    m
}

#[test]
fn residency_sets_efficiency_cluster() {
    let m = cpu_after(&["E-Cluster HW active residency:  42.50% (600 MHz: 10% 972 MHz: 90%)"]);
    assert_eq!(m.e_cluster_active, 42);
    assert_eq!(m.p_cluster_active, 0);
}

#[test]
fn residency_accepts_zero_suffixed_names() {
    let m = cpu_after(&[
        "E0-Cluster HW active residency: 7.99%",
        "P0-Cluster HW active residency: 99.01%",
    ]);
    assert_eq!(m.e_cluster_active, 7);
    assert_eq!(m.p_cluster_active, 99);
}

#[test]
fn residency_of_unknown_cluster_is_ignored() {
    let m = cpu_after(&["X-Cluster HW active residency: 50.00%", "E1-Cluster HW active residency: 60.00%"]);
    assert_eq!(m.e_cluster_active, 0);
    assert_eq!(m.p_cluster_active, 0);
}

#[test]
fn residency_without_fraction_does_not_match() {
    let m = cpu_after(&["E-Cluster HW active residency: 42%"]);
    assert_eq!(m.e_cluster_active, 0);
}

#[test]
fn frequency_sets_cluster_frequency() {
    let m = cpu_after(&["P-Cluster HW active frequency: 3200 MHz", "E-Cluster HW active frequency: 972 MHz"]);
    assert_eq!(m.p_cluster_freq_mhz, 3200);
    assert_eq!(m.e_cluster_freq_mhz, 972);
}

#[test]
fn frequency_that_overflows_reads_as_zero() {
    let m = cpu_after(&[
        "E-Cluster HW active frequency: 1500 MHz",
        "E-Cluster HW active frequency: 99999999999 MHz",
    ]);
    assert_eq!(m.e_cluster_freq_mhz, 0);
}

#[test]
fn power_lines_set_microwatts() {
    let m = cpu_after(&[
        "ANE Power: 500 mW",
        "CPU Power: 1234 mW",
        "GPU Power: 56mW",
        "Combined Power (CPU + GPU + ANE): 1790 mW",
    ]);
    assert_eq!(m.ane_uw, 500_000);
    assert_eq!(m.cpu_uw, 1_234_000);
    assert_eq!(m.gpu_uw, 56_000);
    assert_eq!(m.package_uw, 1_790_000);
}

#[test]
fn power_fraction_is_kept_to_the_microwatt() {
    let m = cpu_after(&["CPU Power: 12.7 mW"]);
    assert_eq!(m.cpu_uw, 12_700);
    let m = cpu_after(&["CPU Power: 1.5e-3 mW"]);
    assert_eq!(m.cpu_uw, 1);
    let m = cpu_after(&["CPU Power: 0.0004 mW"]);
    assert_eq!(m.cpu_uw, 0);
}

#[test]
fn power_accepts_sign_and_exponent() {
    let m = cpu_after(&["ANE Power: +500 mW"]);
    assert_eq!(m.ane_uw, 500_000);
    let m = cpu_after(&["ANE Power: 5e2 mW"]);
    assert_eq!(m.ane_uw, 500_000);
    let m = cpu_after(&["ANE Power: 0.5E+3mW"]);
    assert_eq!(m.ane_uw, 500_000);
    let m = cpu_after(&["ANE Power: 500 mW", "ANE Power: -5 mW"]);
    assert_eq!(m.ane_uw, 0);
    let m = cpu_after(&["ANE Power: 500 mW", "ANE Power: 5e mW"]);
    assert_eq!(m.ane_uw, 0);
    let m = cpu_after(&["ANE Power: 1e400 mW"]);
    assert_eq!(m.ane_uw, u64::MAX);
}

#[test]
fn power_that_is_no_number_reads_as_zero() {
    let m = cpu_after(&["ANE Power: 500 mW", "ANE Power: abc mW"]);
    assert_eq!(m.ane_uw, 0);
}

#[test]
fn power_line_too_short_changes_nothing() {
    let m = cpu_after(&["ANE Power: 500 mW", "ANE Power:"]);
    assert_eq!(m.ane_uw, 500_000);
}

#[test]
fn first_power_label_decides() {
    let m = cpu_after(&["ANE Power CPU Power: 77 mW"]);
    assert_eq!(m.ane_uw, 0);
    assert_eq!(m.cpu_uw, 0);
    let m = cpu_after(&["CPU Power 42 mW"]);
    assert_eq!(m.cpu_uw, 42_000);
    let m = cpu_after(&["CPU Power: 7 mW", "x CPU Power 42 mW"]);
    assert_eq!(m.cpu_uw, 0);
}

#[test]
fn ane_utilization_is_clamped() {
    assert_eq!(ane_utilization(0), 0);
    assert_eq!(ane_utilization(800), 1);
    assert_eq!(ane_utilization(4_000_000), 5000);
    assert_eq!(ane_utilization(8_000_000), 10000);
    assert_eq!(ane_utilization(20_000_000), 10000);
}

#[test]
fn gpu_lines_set_residency_and_frequency() {
    let mut g = GPUMetrics::new();
    parse_gpu_metrics("GPU HW active residency:  12.34% (389 MHz: 12%)", &mut g);
    assert_eq!(g.active, 1234);
    parse_gpu_metrics("GPU HW active frequency: 1296 MHz", &mut g);
    assert_eq!(g.freq_mhz, 1296);
    parse_gpu_metrics("GPU active residency: 5.5%", &mut g);
    assert_eq!(g.active, 550);
    parse_gpu_metrics("GPUactivefrequency: 444 MHz", &mut g);
    assert_eq!(g.freq_mhz, 444);
    assert_eq!(g.active, 550);
}

#[test]
fn gpu_ignores_unrelated_lines() {
    let mut g = GPUMetrics::new();
    parse_gpu_metrics("E-Cluster HW active residency: 42.50%", &mut g);
    parse_gpu_metrics("GPU Power: 56 mW", &mut g);
    assert_eq!(g.active, 0);
    assert_eq!(g.freq_mhz, 0);
}

#[test]
fn network_and_disk_lines_set_rates() {
    let mut n = NetDiskMetrics::new();
    parse_netdisk_metrics("out: 12.5 packets/s, 3456.0 bytes/s", &mut n);
    parse_netdisk_metrics("in: 3 packets/s, 400 bytes/s", &mut n);
    parse_netdisk_metrics("read: 10.2 ops/s 123.4 KBytes/s", &mut n);
    parse_netdisk_metrics("write: 5 ops/s, 60 KBytes/s", &mut n);
    assert_eq!(n.out_packets_per_sec, 12500);
    assert_eq!(n.out_bytes_per_sec, 3456000);
    assert_eq!(n.in_packets_per_sec, 3000);
    assert_eq!(n.in_bytes_per_sec, 400000);
    assert_eq!(n.read_ops_per_sec, 10200);
    assert_eq!(n.read_kbytes_per_sec, 123400);
    assert_eq!(n.write_ops_per_sec, 5000);
    assert_eq!(n.write_kbytes_per_sec, 60000);
}

#[test]
fn rate_that_is_no_number_reads_as_zero() {
    let mut n = NetDiskMetrics::new();
    parse_netdisk_metrics("out: 1.2.3 packets/s, 5 bytes/s", &mut n);
    assert_eq!(n.out_packets_per_sec, 0);
    assert_eq!(n.out_bytes_per_sec, 5000);
}

#[test]
fn unmatched_line_leaves_records_alone() {
    let mut m = cpu_after(&["E-Cluster HW active residency: 42.50%", "ANE Power: 500 mW"]);
    parse_cpu_metrics("**** Processor usage ****", &mut m);
    assert_eq!(m.e_cluster_active, 42);
    assert_eq!(m.ane_uw, 500_000);
    let mut n = NetDiskMetrics::new();
    parse_netdisk_metrics("out: 1 packets/s, 2 bytes/s", &mut n);
    parse_netdisk_metrics("**** Network activity ****", &mut n);
    assert_eq!(n.out_packets_per_sec, 1000);
}

fn regex_cpu(line: &str, m: &mut (i32, i32, i32, i32)) {
    let res = Regex::new(r"(\w+-Cluster)\s+HW active residency:\s+(\d+\.\d+)%").unwrap();
    let freq = Regex::new(r"(\w+-Cluster)\s+HW active frequency:\s+(\d+)\s+MHz").unwrap();
    if let Some(c) = res.captures(line) {
        let p: f64 = c[2].parse().unwrap_or(0.0);
        match &c[1] {
            "E-Cluster" | "E0-Cluster" => m.0 = p as i32,
            "P-Cluster" | "P0-Cluster" => m.2 = p as i32,
            _ => {}
        }
    }
    if let Some(c) = freq.captures(line) {
        let f: i32 = c[2].parse().unwrap_or(0);
        match &c[1] {
            "E-Cluster" | "E0-Cluster" => m.1 = f,
            "P-Cluster" | "P0-Cluster" => m.3 = f,
            _ => {}
        }
    }
}

#[test]
fn cluster_lines_agree_with_patterns() {
    let lines = [
        "E-Cluster HW active residency:  42.50% (600 MHz: 10%)",
        "P0-Cluster HW active frequency: 3228 MHz",
        "xE-Cluster HW active residency: 12.00%",
        "foo E0-Cluster  HW active residency:\t3.25% bar",
        "E-Cluster HW active residency: 1.1% P-Cluster HW active residency: 2.2%",
        "P-Cluster HW active frequency:3228 MHz",
        "P-Cluster HW active frequency: 3228MHz",
        "P-Cluster HW active frequency: 12  MHz trailing",
        "E-Cluster-Cluster HW active residency: 5.00%",
        "E-Cluster HW idle residency: 5.00%",
        "ÉE-Cluster HW active residency: 5.00%",
        "E-Cluster HW active residency: 5.00% éP-Cluster HW active frequency: 9 MHz",
    ];
    for l in lines {
        let mut expected = (0, 0, 0, 0);
        regex_cpu(l, &mut expected);
        let m = cpu_after(&[l]);
        let got = (m.e_cluster_active, m.e_cluster_freq_mhz, m.p_cluster_active, m.p_cluster_freq_mhz);
        assert_eq!(got, expected, "line {:?}", l);
    }
}

#[test]
fn rate_lines_agree_with_patterns() {
    let out = Regex::new(r"out:\s*([\d.]+)\s*packets/s,\s*([\d.]+)\s*bytes/s").unwrap();
    let read = Regex::new(r"read:\s*([\d.]+)\s*ops/s\s*([\d.]+)\s*KBytes/s").unwrap();
    let lines = [
        "out: 35.98 packets/s, 4127.69 bytes/s",
        "out:35packets/s,10bytes/s",
        "timeout: 1 packets/s, 2 bytes/s",
        "out: 1 packets/s 2 bytes/s",
        "read: 11.99 ops/s 161.83 KBytes/s",
        "read: 11.99 ops/s, 161.83 KBytes/s",
    ];
    for l in lines {
        let mut n = NetDiskMetrics::new();
        parse_netdisk_metrics(l, &mut n);
        let milli = |t: &str| (t.parse::<f64>().unwrap_or(0.0) * 1000.0).round() as u64;
        let e_out = out.captures(l).map(|c| (milli(&c[1]), milli(&c[2])));
        let e_read = read.captures(l).map(|c| (milli(&c[1]), milli(&c[2])));
        assert_eq!(e_out.unwrap_or((0, 0)), (n.out_packets_per_sec, n.out_bytes_per_sec), "line {:?}", l);
        assert_eq!(e_read.unwrap_or((0, 0)), (n.read_ops_per_sec, n.read_kbytes_per_sec), "line {:?}", l);
    }
}
