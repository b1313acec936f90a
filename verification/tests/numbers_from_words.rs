use parsitext::numbers::from_words::from_words;

#[test]
fn small() {
    assert_eq!(from_words("صفر"), Some(0));
    assert_eq!(from_words("هفت"), Some(7));
    assert_eq!(from_words("بیست و یک"), Some(21));
}

#[test]
fn from_words_hundreds() {
    assert_eq!(from_words("صد و پنج"), Some(105));
    assert_eq!(from_words("سیصد و پنجاه و دو"), Some(352));
}

#[test]
fn from_words_thousands() {
    assert_eq!(from_words("هزار"), Some(1_000));
    assert_eq!(from_words("یک هزار و دویست"), Some(1_200));
    assert_eq!(from_words("دو هزار و پانصد"), Some(2_500));
}

#[test]
fn millions() {
    assert_eq!(from_words("یک میلیون"), Some(1_000_000));
    assert_eq!(from_words("دو میلیون و پانصد هزار"), Some(2_500_000));
}

#[test]
fn from_words_round_trip() {
    for n in [0i64, 1, 21, 100, 999, 1234, 1_000_000, 2_500_000] {
        let words = parsitext::numbers::to_words(n);
        assert_eq!(from_words(&words), Some(n), "roundtrip failed for {n}");
    }
}

#[test]
fn negative_prefix() {
    assert_eq!(from_words("منفی پنجاه"), Some(-50));
}

#[test]
fn from_words_rejects_garbage() {
    assert_eq!(from_words(""), None);
    assert_eq!(from_words("nope"), None);
    assert_eq!(from_words("hello world"), None);
}
