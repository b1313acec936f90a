use parsitext::phonetic::soundex;

#[test]
fn fixed_length() {
    assert_eq!(soundex("ا").chars().count(), 4);
    assert_eq!(soundex("کتاب").chars().count(), 4);
    assert_eq!(soundex("سپاسگزاری").chars().count(), 4);
}

#[test]
fn homophones_same_code() {
    // ص and س share the s phoneme
    assert_eq!(soundex("صبر"), soundex("سبر"));
    // ذ ز ض ظ all map to z
    assert_eq!(soundex("ذرت"), soundex("زرت"));
}

#[test]
fn distinct_words_distinct_codes() {
    assert_ne!(soundex("کتاب"), soundex("کنار"));
    assert_ne!(soundex("سفر"), soundex("کتاب"));
}

#[test]
fn phonetic_empty_input() {
    assert_eq!(soundex(""), "0000");
}

#[test]
fn matches_helper() {
    assert!(parsitext::phonetic::matches("صبر", "سبر"));
    assert!(!parsitext::phonetic::matches("کتاب", "سفر"));
}

#[test]
fn pads_short_word() {
    let s = soundex("ا");
    assert_eq!(s.chars().count(), 4);
    assert!(s.ends_with("000"));
}
