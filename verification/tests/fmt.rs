use fuide::fmt::uptime_tenths;

/// Seconds on the app's clock as the status bar shows them (tenths, rounded down).
fn uptime(secs: f64) -> String {
    uptime_tenths((secs.max(0.0) * 10.0).floor() as u64)
}

#[test]
fn formats_fixed_width_within_a_day() {
    assert_eq!(uptime(0.0), "T+00:00:00.0");
    assert_eq!(uptime(12.45), "T+00:00:12.4");
    assert_eq!(uptime(3_723.9), "T+01:02:03.9");
    assert_eq!(uptime(86_399.99), "T+23:59:59.9");
}

#[test]
fn prefixes_days_after_24h() {
    assert_eq!(uptime(86_400.0), "T+1d 00:00:00.0");
    assert_eq!(
        uptime(86_400.0 + 3_600.0 * 3.0 + 60.0 * 22.0 + 11.4),
        "T+1d 03:22:11.4"
    );
    assert_eq!(uptime(365.0 * 86_400.0 * 3.0), "T+1095d 00:00:00.0");
}

#[test]
fn never_panics_on_extreme_input() {
    let _ = uptime(-5.0);
    let _ = uptime(f64::MAX);
}

#[test]
fn uptime_from_tenths() {
    assert_eq!(uptime_tenths(0), "T+00:00:00.0");
    assert_eq!(uptime_tenths(863_999), "T+23:59:59.9");
    assert_eq!(uptime_tenths(864_000), "T+1d 00:00:00.0");
    assert_eq!(uptime_tenths(u64::MAX), "T+21350398233460d 03:06:01.5");
}
