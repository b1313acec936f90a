use parsitext::normalizer::orthography::fix_arabic_chars;

#[test]
fn replaces_arabic_kaf() {
    assert_eq!(fix_arabic_chars("كتاب"), "کتاب");
}

#[test]
fn replaces_arabic_yeh() {
    assert_eq!(fix_arabic_chars("يك"), "یک");
}

#[test]
fn replaces_teh_marbuta() {
    assert_eq!(fix_arabic_chars("مدرسة"), "مدرسه");
}

#[test]
fn keeps_persian_chars_intact() {
    let s = "سلام خوبی؟";
    assert_eq!(fix_arabic_chars(s), s);
}
