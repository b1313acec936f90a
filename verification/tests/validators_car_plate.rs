use parsitext::validators::car_plate::parse;

#[test]
fn parses_spaced_plate() {
    let p = parse("12 ب 345 - 67").unwrap();
    assert_eq!(p.first, 12);
    assert_eq!(p.letter, 'ب');
    assert_eq!(p.second, 345);
    assert_eq!(p.province, 67);
}

#[test]
fn parses_persian_digit_plate() {
    let p = parse("۱۲ب۳۴۵۶۷").unwrap();
    assert_eq!((p.first, p.second, p.province), (12, 345, 67));
}

#[test]
fn display_round_trip() {
    let p = parse("12 ب 345 - 67").unwrap();
    assert_eq!(p.to_string(), "12ب345-67");
}

#[test]
fn rejects_non_persian_letter() {
    assert!(parse("12 X 345 67").is_none());
}

#[test]
fn rejects_missing_province() {
    assert!(parse("12 ب 345").is_none());
}

#[test]
fn rejects_short_serial() {
    assert!(parse("1 ب 345 67").is_none());
}
