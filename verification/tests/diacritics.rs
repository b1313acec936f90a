use parsitext::diacritics::remove_diacritics;

#[test]
fn removes_fatha_kasra_shadda() {
    assert_eq!(remove_diacritics("مُحَمَّد"), "محمد");
}

#[test]
fn removes_tanwin() {
    assert_eq!(remove_diacritics("كِتَابٌ"), "كتاب");
}

#[test]
fn removes_tatweel() {
    assert_eq!(remove_diacritics("سلاـم"), "سلام");
}

#[test]
fn clean_text_unchanged() {
    let s = "سلام خوبی؟";
    assert_eq!(remove_diacritics(s), s);
}

#[test]
fn diacritics_empty_string() {
    assert_eq!(remove_diacritics(""), "");
}
