use parsitext::script::{
    has_arabic, has_persian, is_arabic_only_letter, is_arabic_or_persian, is_persian_letter,
    is_pure_persian, to_arabic,
};

#[test]
fn detects_arabic_letter() {
    assert!(has_arabic("هذة مدرسة"));
    assert!(!has_arabic("این مدرسه است")); // Persian ی (U+06CC), not Arabic ي
}

#[test]
fn detects_persian_letter() {
    assert!(has_persian("پارسی زبان است"));
    assert!(!has_persian("هذا كتاب"));
}

#[test]
fn pure_persian_detection() {
    assert!(is_pure_persian("سلام دنیا"));
    assert!(is_pure_persian("یک، دو، سه!"));
    assert!(!is_pure_persian("hello سلام"));
}

#[test]
fn pure_persian_empty_no_letters() {
    // No alphabetic chars at all — not "pure Persian".
    assert!(!is_pure_persian(""));
    assert!(!is_pure_persian("12345"));
}

#[test]
fn to_arabic_basic() {
    assert_eq!(to_arabic("کتاب"), "كتاب");
    assert_eq!(to_arabic("یا علی"), "يا علي");
    assert_eq!(to_arabic("سلام"), "سلام"); // no change
}

#[test]
fn classification_predicates() {
    assert!(is_persian_letter('پ'));
    assert!(!is_persian_letter('ك'));
    assert!(is_arabic_only_letter('ك'));
    assert!(is_arabic_or_persian('ا'));
    assert!(!is_arabic_or_persian('a'));
}
