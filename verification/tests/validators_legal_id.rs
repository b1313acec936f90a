use parsitext::validators::legal_id::validate;

#[test]
fn legal_id_valid_known_ids() {
    for id in [
        "10380284790",
        "10103367860",
        "10861974687",
        "14002892636",
        "10086685006",
    ] {
        assert!(validate(id), "{id} should validate");
    }
}

#[test]
fn legal_id_rejects_bad_checksum() {
    assert!(!validate("12345678901"));
}

#[test]
fn legal_id_rejects_wrong_length() {
    assert!(!validate(""));
    assert!(!validate("1234567890")); // 10 digits — looks like a personal ID
    assert!(!validate("123456789012"));
}

#[test]
fn legal_id_rejects_repunit() {
    for d in '0'..='9' {
        let id: String = std::iter::repeat_n(d, 11).collect();
        assert!(!validate(&id), "{id} should be rejected");
    }
}

#[test]
fn legal_id_accepts_persian_digits() {
    assert!(validate("۱۰۳۸۰۲۸۴۷۹۰"));
}

#[test]
fn legal_id_accepts_separators() {
    assert!(validate("103-8028-4790"));
    assert!(validate("103 8028 4790"));
}
