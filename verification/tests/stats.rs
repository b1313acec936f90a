use parsitext::stats::{compute, TextStats};

/// The share of letters that are Persian, zero when there are no letters.
fn persian_ratio(s: &TextStats) -> f64 {
    if s.letter_count > 0 {
        s.persian_letter_count as f64 / s.letter_count as f64
    } else {
        0.0
    }
}

#[test]
fn basic_counts() {
    let s = compute("سلام دنیا");
    assert_eq!(s.word_count, 2);
    assert_eq!(s.space_count, 1);
    assert!(persian_ratio(&s) > 0.9);
}

#[test]
fn mixed_script() {
    let s = compute("hello سلام");
    assert!(s.latin_letter_count > 0);
    assert!(s.persian_letter_count > 0);
    assert!(persian_ratio(&s) > 0.0 && persian_ratio(&s) < 1.0);
}

#[test]
fn digit_count() {
    let s = compute("۱۲۳ abc");
    assert_eq!(s.digit_count, 3);
}

#[test]
fn sentence_count() {
    let s = compute("جمله اول. جمله دوم؟");
    assert_eq!(s.sentence_count, 2);
}

#[test]
fn empty() {
    let s = compute("");
    assert_eq!(s.char_count, 0);
    assert_eq!(persian_ratio(&s), 0.0);
}
