use siliconmon::sysinfo::{
    get_apple_silicon_info, parse_gpu_core_count, parse_size, parse_swap_usage, parse_sysctl_int,
    parse_sysctl_string,
};

#[test]
fn sysctl_string_is_the_value_after_the_name() {
    assert_eq!(
        parse_sysctl_string("machdep.cpu.brand_string: Apple M1 Pro\n").as_deref(),
        Some("Apple M1 Pro")
    );
    assert_eq!(parse_sysctl_string("a: b: c").as_deref(), Some("b"));
    assert_eq!(parse_sysctl_string("  a: \n").as_deref(), None);
    assert_eq!(parse_sysctl_string("a:: x").as_deref(), Some("x"));
    assert_eq!(parse_sysctl_string("no separator"), None);
}

#[test]
fn sysctl_value_may_be_empty() {
    assert_eq!(parse_sysctl_string("a: : x").as_deref(), Some(""));
}

#[test]
fn sysctl_int_reads_the_value() {
    assert_eq!(parse_sysctl_int("hw.perflevel1.logicalcpu: 2\n"), Some(2));
    assert_eq!(parse_sysctl_int("x: -5"), Some(-5));
    assert_eq!(parse_sysctl_int("x: +7"), Some(7));
    assert_eq!(parse_sysctl_int("x: 2147483647"), Some(i32::MAX));
    assert_eq!(parse_sysctl_int("x: -2147483648"), Some(i32::MIN));
    assert_eq!(parse_sysctl_int("x: 2147483648"), None);
    assert_eq!(parse_sysctl_int("x: abc"), None);
    assert_eq!(parse_sysctl_int("x: -"), None);
    assert_eq!(parse_sysctl_int("x 5"), None);
}

#[test]
fn gpu_core_count_from_the_report() {
    let report = "Graphics/Displays:\n\n    Apple M1 Pro:\n\n      Chipset Model: Apple M1 Pro\r\n      Total Number of Cores: 16\r\n      Vendor: Apple (0x106b)\n";
    assert_eq!(parse_gpu_core_count(report).as_deref(), Some("16"));
    assert_eq!(parse_gpu_core_count("Total Number of Cores 16\nTotal Number of Cores: 8"), Some("8".to_string()));
    assert_eq!(parse_gpu_core_count("Chipset Model: M1\n"), None);
    assert_eq!(parse_gpu_core_count(""), None);
}

#[test]
fn swap_usage_in_bytes() {
    let out = "vm.swapusage: total = 2048.00M  used = 1024.50M  free = 1023.50M  (encrypted)\n";
    assert_eq!(parse_swap_usage(out), Some((2147483648, 1074266112, 1073217536)));
    assert_eq!(parse_swap_usage("total = 1.50G used = 0.00M free = 1.50G"), Some((1610612736, 0, 1610612736)));
    assert_eq!(parse_swap_usage("total = 2048M used = 1M free = 1M"), None);
    assert_eq!(parse_swap_usage("nothing here"), None);
}

#[test]
fn size_units() {
    assert_eq!(parse_size("1.5", "G"), 1610612736);
    assert_eq!(parse_size("2048.00", "M"), 2147483648);
    assert_eq!(parse_size("2", "K"), 0);
    assert_eq!(parse_size("abc", "M"), 0);
    assert_eq!(parse_size("1", "GG"), 0);
    assert_eq!(parse_size("0.0005", "M"), 524);
    assert_eq!(parse_size("1e3", "M"), 1_048_576_000);
    assert_eq!(parse_size("+2", "G"), 2_147_483_648);
    assert_eq!(parse_size("-1", "G"), 0);
    assert_eq!(parse_size(".5", "M"), 524_288);
    assert_eq!(parse_size("1e30", "G"), u64::MAX);
    assert_eq!(parse_size("123456789.123456789123456789", "M"), 129_453_826_111_917);
}

#[test]
fn hardware_summary_defaults() {
    let i = get_apple_silicon_info(None, Some(8), None, None);
    assert_eq!(i.name, "Unknown");
    assert_eq!(i.e_core_count, 8);
    assert_eq!(i.p_core_count, 0);
    assert_eq!(i.gpu_core_count, "?");
    let i = get_apple_silicon_info(Some("Apple M2".to_string()), None, Some(4), Some("10".to_string()));
    assert_eq!(i.name, "Apple M2");
    assert_eq!(i.e_core_count, 0);
    assert_eq!(i.p_core_count, 4);
    assert_eq!(i.gpu_core_count, "10");
}
