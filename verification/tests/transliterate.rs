use parsitext::transliterate::to_latin;

#[test]
fn basic_words() {
    assert_eq!(to_latin("سلام"), "slam");
    assert_eq!(to_latin("کتاب"), "ktab");
    assert_eq!(to_latin("ایران"), "ayran");
}

#[test]
fn drops_zwnj() {
    assert_eq!(to_latin("می\u{200C}روم"), "myrvm");
}

#[test]
fn handles_compound_consonants() {
    assert_eq!(to_latin("خوش"), "khvsh");
    assert_eq!(to_latin("چای"), "chay");
}

#[test]
fn passes_through_latin_and_digits() {
    assert_eq!(to_latin("hello 123"), "hello 123");
}

#[test]
fn transliterate_empty_input() {
    assert_eq!(to_latin(""), "");
}
