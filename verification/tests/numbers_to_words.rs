use parsitext::numbers::to_words::{ordinal, to_words};

#[test]
fn small_numbers() {
    assert_eq!(to_words(0), "صفر");
    assert_eq!(to_words(1), "یک");
    assert_eq!(to_words(7), "هفت");
    assert_eq!(to_words(15), "پانزده");
    assert_eq!(to_words(19), "نوزده");
    assert_eq!(to_words(20), "بیست");
    assert_eq!(to_words(21), "بیست و یک");
    assert_eq!(to_words(99), "نود و نه");
}

#[test]
fn to_words_hundreds() {
    assert_eq!(to_words(100), "صد");
    assert_eq!(to_words(105), "صد و پنج");
    assert_eq!(to_words(150), "صد و پنجاه");
    assert_eq!(to_words(999), "نهصد و نود و نه");
}

#[test]
fn to_words_thousands() {
    assert_eq!(to_words(1000), "یک هزار");
    assert_eq!(to_words(1234), "یک هزار و دویست و سی و چهار");
    assert_eq!(to_words(2000), "دو هزار");
    assert_eq!(to_words(10_000), "ده هزار");
    assert_eq!(to_words(100_000), "صد هزار");
}

#[test]
fn millions_and_billions() {
    assert_eq!(to_words(1_000_000), "یک میلیون");
    assert_eq!(to_words(2_500_000), "دو میلیون و پانصد هزار");
    assert_eq!(to_words(1_000_000_000), "یک میلیارد");
}

#[test]
fn negative() {
    assert_eq!(to_words(-1), "منفی یک");
    assert_eq!(to_words(-1234), "منفی یک هزار و دویست و سی و چهار");
}

#[test]
fn ordinals() {
    assert_eq!(ordinal(1), "اول");
    assert_eq!(ordinal(2), "دوم");
    assert_eq!(ordinal(3), "سوم");
    assert_eq!(ordinal(30), "سی‌ام");
}

#[test]
fn handles_extreme_values() {
    // Should not panic on i64 extremes.
    let _ = to_words(i64::MAX);
    let _ = to_words(i64::MIN);
}
