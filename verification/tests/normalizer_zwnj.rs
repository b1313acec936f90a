use parsitext::normalizer::zwnj::normalize_zwnj;

#[test]
fn keeps_valid_zwnj() {
    // می‌روم — ZWNJ between ی and ر (both Arabic block)
    let s = "می\u{200C}روم";
    assert_eq!(normalize_zwnj(s), s);
}

#[test]
fn drops_zwnj_next_to_space() {
    assert_eq!(normalize_zwnj("سلام \u{200C}دنیا"), "سلام دنیا");
    assert_eq!(normalize_zwnj("سلام\u{200C} دنیا"), "سلام دنیا");
}

#[test]
fn drops_leading_trailing_zwnj() {
    assert_eq!(normalize_zwnj("\u{200C}سلام\u{200C}"), "سلام");
}

#[test]
fn collapses_consecutive_zwnj() {
    // Double ZWNJ between two Persian letters → only one survives
    let s = "می\u{200C}\u{200C}رود";
    assert_eq!(normalize_zwnj(s), "می\u{200C}رود");
}

#[test]
fn drops_zwnj_next_to_latin() {
    assert_eq!(normalize_zwnj("ایران\u{200C}Air"), "ایرانAir");
}
