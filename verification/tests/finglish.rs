use parsitext::finglish::to_persian;

#[test]
fn dict_words_take_priority() {
    // Without the dict, "salam" would char-build to something else.
    assert_eq!(to_persian("salam"), "سلام");
    assert_eq!(to_persian("merci"), "مرسی");
}

#[test]
fn case_insensitive() {
    assert_eq!(to_persian("Salam"), "سلام");
    assert_eq!(to_persian("MERCI"), "مرسی");
}

#[test]
fn punctuation_passes_through() {
    assert_eq!(to_persian("salam!"), "سلام!");
    assert_eq!(to_persian("chetori?"), "چطوری?");
}

#[test]
fn whitespace_preserved() {
    assert_eq!(to_persian("man khoobam"), "من خوبم");
}

#[test]
fn char_level_fallback() {
    // "ketab" isn't in the dict; medial e is silent so this round-trips.
    assert_eq!(to_persian("ketab"), "کتاب");
}

#[test]
fn digraphs_kh_sh_ch() {
    assert_eq!(to_persian("khosh"), "خوش");
    assert_eq!(to_persian("char"), "چار");
}

#[test]
fn finglish_empty_string() {
    assert_eq!(to_persian(""), "");
}

#[test]
fn mixed_persian_passes_through() {
    assert_eq!(to_persian("سلام salam"), "سلام سلام");
}
