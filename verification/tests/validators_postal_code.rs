use parsitext::validators::postal_code::validate;

#[test]
fn valid_examples() {
    assert!(validate("1969833114"));
    assert!(validate("9876543219"));
}

#[test]
fn rejects_leading_zero() {
    assert!(!validate("0123456789"));
}

#[test]
fn postal_code_rejects_wrong_length() {
    assert!(!validate("123"));
    assert!(!validate("12345678901"));
}

#[test]
fn rejects_long_run() {
    assert!(!validate("1111111111"));
    assert!(!validate("1232222345"));
}

#[test]
fn postal_code_accepts_persian_digits() {
    assert!(validate("۱۹۶۹۸۳۳۱۱۴"));
}
