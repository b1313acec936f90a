use parsitext::validators::landline::{province, validate, Province};

#[test]
fn validates_tehran_landline() {
    assert!(validate("02112345678"));
}

#[test]
fn rejects_mobile() {
    assert!(!validate("09121234567"));
}

#[test]
fn landline_rejects_short() {
    assert!(!validate("0211234"));
}

#[test]
fn province_lookup() {
    assert_eq!(province("02112345678"), Some(Province::Tehran));
    assert_eq!(province("03112345678"), Some(Province::Isfahan));
    assert_eq!(province("04112345678"), Some(Province::EastAzerbaijan));
}

#[test]
fn landline_accepts_separators() {
    assert!(validate("021-12345678"));
    assert!(validate("(021) 1234-5678"));
}

#[test]
fn landline_accepts_persian_digits() {
    assert!(validate("۰۲۱۱۲۳۴۵۶۷۸"));
}

#[test]
fn province_persian_name() {
    assert_eq!(Province::Tehran.persian_name(), Some("تهران"));
}
