use parsitext::validators::bank_card::{bank, bank_persian, validate};

#[test]
fn known_valid_card() {
    assert!(validate("6037990000000006"));
}

#[test]
fn rejects_bad_luhn() {
    assert!(!validate("6037997599999990"));
}

#[test]
fn bank_card_rejects_wrong_length() {
    assert!(!validate("12345"));
    assert!(!validate("60379900000000060"));
}

#[test]
fn bank_card_accepts_separators() {
    assert!(validate("6037-9900-0000-0006"));
    assert!(validate("6037 9900 0000 0006"));
}

#[test]
fn bank_card_accepts_persian_digits() {
    assert!(validate("۶۰۳۷۹۹۰۰۰۰۰۰۰۰۰۶"));
}

#[test]
fn bank_lookup_returns_melli() {
    // BIN 603799 = Bank Melli
    assert_eq!(bank("6037990000000006"), Some("Bank Melli Iran"));
    assert_eq!(bank_persian("6037990000000006"), Some("بانک ملی ایران"));
}

#[test]
fn bank_lookup_invalid_card() {
    assert_eq!(bank("6037997599999990"), None);
}
