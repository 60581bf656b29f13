use sys_info::{
    parse_cpu_speed_field, parse_kernel_line, parse_loadavg_fields, parse_proc_total, parse_uptime, Error,
};

#[test]
fn uptime_keeps_whole_seconds_and_remainder() {
    assert_eq!(parse_uptime("123.45 67.89\n").unwrap(), (123, 450000));
}

#[test]
fn uptime_without_fraction() {
    assert_eq!(parse_uptime("5 1").unwrap(), (5, 0));
}

#[test]
fn uptime_fraction_is_cut_to_microseconds() {
    assert_eq!(parse_uptime("1.1234567 2.0").unwrap(), (1, 123456));
}

#[test]
fn uptime_needs_two_values() {
    assert!(matches!(parse_uptime("123.45\n"), Err(Error::Unknown)));
}

#[test]
fn uptime_rejects_text() {
    assert!(matches!(parse_uptime("abc 1.0"), Err(Error::Unknown)));
    assert!(matches!(parse_uptime("1.0 x"), Err(Error::Unknown)));
    assert!(matches!(parse_uptime(""), Err(Error::Unknown)));
}

#[test]
fn uptime_seconds_beyond_64_bits_rejected() {
    assert!(matches!(parse_uptime("99999999999999999999.5 1"), Err(Error::Unknown)));
}

#[test]
fn load_line_gives_three_averages_in_order() {
    let (one, five, fifteen) = parse_loadavg_fields("0.50 0.40 0.30 2/300 12345\n").unwrap();
    assert_eq!(one, "0.50");
    assert_eq!(five, "0.40");
    assert_eq!(fifteen, "0.30");
    assert_eq!(one.parse::<f64>().unwrap(), 0.50);
    assert_eq!(five.parse::<f64>().unwrap(), 0.40);
    assert_eq!(fifteen.parse::<f64>().unwrap(), 0.30);
}

#[test]
fn load_line_gives_process_total() {
    assert_eq!(parse_proc_total("0.50 0.40 0.30 2/300 12345\n").unwrap(), 300);
}

#[test]
fn load_line_with_two_values_fails() {
    assert!(matches!(parse_loadavg_fields("0.50 0.40\n"), Err(Error::Unknown)));
}

#[test]
fn process_total_needs_fourth_field() {
    assert!(matches!(parse_proc_total("0.50 0.40 0.30\n"), Err(Error::Unknown)));
}

#[test]
fn process_total_must_be_a_number() {
    assert!(matches!(parse_proc_total("0.50 0.40 0.30 2/abc 1"), Err(Error::Unknown)));
    assert!(matches!(parse_proc_total("0.50 0.40 0.30 2/ 1"), Err(Error::Unknown)));
}

#[test]
fn process_total_without_slash_is_the_field() {
    assert_eq!(parse_proc_total("0.1 0.2 0.3 17 9").unwrap(), 17);
}

#[test]
fn kernel_line_loses_its_newline() {
    assert_eq!(parse_kernel_line("Linux\n"), "Linux");
    assert_eq!(parse_kernel_line("5.10.4-arch2-1\n"), "5.10.4-arch2-1");
}

#[test]
fn kernel_line_never_ends_in_newline() {
    assert_eq!(parse_kernel_line("Linux\n\n"), "Linux");
    assert_eq!(parse_kernel_line("Linux\r\n"), "Linux\r");
    assert_eq!(parse_kernel_line("Linux \t\n"), "Linux \t");
    assert_eq!(parse_kernel_line("Linux"), "Linux");
    assert_eq!(parse_kernel_line("\n"), "");
    assert_eq!(parse_kernel_line(""), "");
}

/// The clock rate as the host query gives it: the field read as a float and
/// cut to its whole part.
fn parse_cpu_speed(listing: &str) -> Result<u64, Error> {
    let text = parse_cpu_speed_field(listing)?;
    Ok(text.parse::<f64>().map_err(|_| Error::Unknown)? as u64)
}

#[test]
fn cpu_speed_from_cpu_mhz_line() {
    let listing = "processor\t: 0\nvendor_id\t: GenuineIntel\ncpu MHz\t\t: 2400.123\ncache size\t: 8192 KB\n";
    assert_eq!(parse_cpu_speed(listing).unwrap(), 2400);
}

#[test]
fn cpu_speed_takes_first_matching_line() {
    let listing = "BogoMIPS\t: 48.00\ncpu MHz\t\t: 2400.0\n";
    assert_eq!(parse_cpu_speed(listing).unwrap(), 48);
}

#[test]
fn cpu_speed_drops_unit() {
    assert_eq!(parse_cpu_speed("clock\t\t: 1500.000000MHz\n").unwrap(), 1500);
    assert_eq!(parse_cpu_speed("bogomips per cpu: 3000\n").unwrap(), 3000);
}

#[test]
fn cpu_speed_missing_line_fails() {
    assert!(matches!(parse_cpu_speed("processor\t: 0\nmodel name\t: x\n"), Err(Error::Unknown)));
    assert!(matches!(parse_cpu_speed(""), Err(Error::Unknown)));
}

#[test]
fn cpu_speed_bad_value_fails() {
    assert!(matches!(parse_cpu_speed("cpu MHz\t\t: fast\n"), Err(Error::Unknown)));
    assert!(matches!(parse_cpu_speed("cpu MHz\t\t: \n"), Err(Error::Unknown)));
}

#[test]
fn load_fields_must_be_non_negative_decimals() {
    assert!(matches!(parse_loadavg_fields("-1 0.40 0.30 2/300 1"), Err(Error::Unknown)));
    assert!(matches!(parse_loadavg_fields("inf 0.40 0.30 2/300 1"), Err(Error::Unknown)));
    assert!(matches!(parse_loadavg_fields("0.50 NaN 0.30 2/300 1"), Err(Error::Unknown)));
    assert!(matches!(parse_loadavg_fields("0.50 0.40 1e 2/300 1"), Err(Error::Unknown)));
    assert!(matches!(parse_loadavg_fields("0.50  0.40 0.30"), Err(Error::Unknown)));
}

#[test]
fn load_field_with_plus_sign_is_accepted() {
    let (one, _, _) = parse_loadavg_fields("+0.50 0.40 0.30 2/300 1").unwrap();
    assert_eq!(one, "+0.50");
    assert_eq!(one.parse::<f64>().unwrap(), 0.50);
}

#[test]
fn decimals_may_carry_a_plus_sign() {
    assert_eq!(parse_uptime("+12.5 +1").unwrap(), (12, 500000));
    assert_eq!(parse_cpu_speed("cpu MHz\t\t: +2400.9\n").unwrap(), 2400);
    assert!(matches!(parse_uptime("-12.5 1"), Err(Error::Unknown)));
    assert!(matches!(parse_uptime("+ 1"), Err(Error::Unknown)));
}

#[test]
fn decimals_with_point_at_either_end() {
    assert_eq!(parse_uptime(".25 5.").unwrap(), (0, 250000));
    assert!(matches!(parse_uptime(". 1"), Err(Error::Unknown)));
}

#[test]
fn cpu_speed_field_is_the_trimmed_value() {
    assert_eq!(parse_cpu_speed_field("cpu MHz\t\t: 2400.123 MHz\n").unwrap(), "2400.123");
}

#[test]
fn cpu_speed_with_exponent_is_read_as_float() {
    assert_eq!(parse_cpu_speed_field("BogoMIPS:2e3\n").unwrap(), "2e3");
    assert_eq!(parse_cpu_speed("BogoMIPS:2e3\n").unwrap(), 2000);
    assert_eq!(parse_cpu_speed("clock\t: 1.5E+3MHz\n").unwrap(), 1500);
    assert_eq!(parse_cpu_speed("cpu MHz\t: 25000e-1\n").unwrap(), 2500);
}

#[test]
fn cpu_speed_refuses_what_is_no_finite_non_negative_value() {
    assert!(matches!(parse_cpu_speed_field("cpu MHz\t: -5\n"), Err(Error::Unknown)));
    assert!(matches!(parse_cpu_speed_field("cpu MHz\t: inf\n"), Err(Error::Unknown)));
    assert!(matches!(parse_cpu_speed_field("cpu MHz\t: NaN\n"), Err(Error::Unknown)));
    assert!(matches!(parse_cpu_speed_field("cpu MHz\t: 2e\n"), Err(Error::Unknown)));
    assert!(matches!(parse_cpu_speed_field("cpu MHz\t: 2e3e1\n"), Err(Error::Unknown)));
}

#[test]
fn load_fields_may_use_exponents() {
    let (one, five, fifteen) = parse_loadavg_fields("5e-1 4.0E-1 +3e-1 1/2 3").unwrap();
    assert_eq!(one.parse::<f64>().unwrap(), 0.5);
    assert_eq!(five.parse::<f64>().unwrap(), 0.4);
    assert_eq!(fifteen.parse::<f64>().unwrap(), 0.3);
}

#[test]
fn uptime_with_exponent_is_read_exactly() {
    assert_eq!(parse_uptime("1.2345e2 0").unwrap(), (123, 450000));
    assert_eq!(parse_uptime("12345E-2 1.5e1").unwrap(), (123, 450000));
    assert_eq!(parse_uptime("1e-6 1").unwrap(), (0, 1));
    assert_eq!(parse_uptime("5e-7 1").unwrap(), (0, 0));
    assert_eq!(parse_uptime("2.5e+1 1").unwrap(), (25, 0));
}

#[test]
fn uptime_with_extreme_exponents() {
    assert_eq!(parse_uptime("0e999999999999999999999999999999999999999999 1").unwrap(), (0, 0));
    assert_eq!(parse_uptime("7e-999999999999999999999999999999999999999999 1").unwrap(), (0, 0));
    assert!(matches!(parse_uptime("1e30 1"), Err(Error::Unknown)));
    assert!(matches!(parse_uptime("1e999999999999999999999999999999999999999999 1"), Err(Error::Unknown)));
    assert!(matches!(parse_uptime("1e 1"), Err(Error::Unknown)));
}
