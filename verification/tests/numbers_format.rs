#[test]
fn formats_with_separators() {
    assert_eq!(parsitext::numbers::format(1_234_567), "۱،۲۳۴،۵۶۷");
    assert_eq!(parsitext::numbers::format(0), "۰");
    assert_eq!(parsitext::numbers::format(999), "۹۹۹");
    assert_eq!(parsitext::numbers::format(1000), "۱،۰۰۰");
}

#[test]
fn formats_negative() {
    assert_eq!(parsitext::numbers::format(-1_000), "-۱،۰۰۰");
}

#[test]
fn formats_i64_min() {
    // Should not panic on i64::MIN edge case.
    let s = parsitext::numbers::format(i64::MIN);
    assert!(s.starts_with('-'));
}
