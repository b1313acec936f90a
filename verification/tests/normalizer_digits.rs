use parsitext::normalizer::digits::{to_latin, to_persian};

#[test]
fn latin_to_persian() {
    assert_eq!(to_persian("1402/03/15"), "۱۴۰۲/۰۳/۱۵");
}

#[test]
fn arabic_indic_to_persian() {
    assert_eq!(to_persian("١٢٣٤"), "۱۲۳۴");
}

#[test]
fn persian_to_latin() {
    assert_eq!(to_latin("۱۴۰۲"), "1402");
}

#[test]
fn mixed_to_latin() {
    assert_eq!(to_latin("۱٢3"), "123");
}
