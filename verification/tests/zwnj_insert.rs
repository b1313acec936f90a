use parsitext::zwnj_insert::insert;

#[test]
fn inserts_after_mi_prefix() {
    assert_eq!(insert("میروم"), "می\u{200C}روم");
}

#[test]
fn inserts_after_nemi_prefix() {
    assert_eq!(insert("نمیدانم"), "نمی\u{200C}دانم");
}

#[test]
fn inserts_before_ha() {
    assert_eq!(insert("کتابها"), "کتاب\u{200C}ها");
}

#[test]
fn inserts_before_haye() {
    assert_eq!(insert("کتابهای"), "کتاب\u{200C}های");
}

#[test]
fn inserts_before_possessive_am() {
    assert_eq!(insert("کتابام"), "کتاب\u{200C}ام");
}

#[test]
fn skips_when_already_has_zwnj() {
    assert_eq!(insert("می\u{200C}روم"), "می\u{200C}روم");
}

#[test]
fn preserves_whitespace_and_punct() {
    assert_eq!(insert("میروم به خانه."), "می\u{200C}روم به خانه.");
}

#[test]
fn skips_too_short_words() {
    // "ما" is 2 chars and doesn't extend with verb stem
    assert_eq!(insert("ما"), "ما");
}
