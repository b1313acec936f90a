use parsitext::validators::national_id::{expected_check_digit, issuance_prefix, validate};

#[test]
fn national_id_valid_known_ids() {
    // Sample IDs whose checksums verify against the published algorithm.
    for id in ["0499370899", "0084575948", "1729374654"] {
        assert!(validate(id), "{id} should be valid");
    }
}

#[test]
fn national_id_rejects_bad_checksum() {
    // Bad check digit (correct one would be 9).
    assert!(!validate("0499370891"));
    // Bad check digit (correct one would be 4).
    assert!(!validate("1729374650"));
}

#[test]
fn national_id_rejects_repunit() {
    for d in '0'..='9' {
        let id: String = std::iter::repeat_n(d, 10).collect();
        assert!(!validate(&id), "{id} should be rejected");
    }
}

#[test]
fn national_id_rejects_wrong_length() {
    assert!(!validate("12345"));
    assert!(!validate("12345678901"));
    assert!(!validate(""));
}

#[test]
fn national_id_accepts_persian_digits() {
    assert!(validate("۰۴۹۹۳۷۰۸۹۹"));
}

#[test]
fn ignores_separators() {
    assert!(validate("049-937-0899"));
    assert!(validate("049 937 0899"));
}

#[test]
fn check_digit() {
    // First 9 digits of a known valid ID -> check digit 9
    assert_eq!(expected_check_digit("049937089"), Some(9));
}

#[test]
fn prefix_extraction() {
    assert_eq!(issuance_prefix("0499370899").as_deref(), Some("049"));
    assert_eq!(issuance_prefix("12"), None);
}
