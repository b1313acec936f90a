use parsitext::money::{parse, MoneyUnit};

#[test]
fn parse_numeric_with_multiplier() {
    let m = parse("۵۰۰ هزار تومان").unwrap();
    assert_eq!(m.value, 500_000);
    assert_eq!(m.unit, MoneyUnit::Toman);
}

#[test]
fn parse_with_million() {
    let m = parse("۲ میلیون تومان").unwrap();
    assert_eq!(m.value, 2_000_000);
}

#[test]
fn parse_with_decimal_million() {
    let m = parse("۱.۵ میلیون تومان").unwrap();
    assert_eq!(m.value, 1_500_000);
}

#[test]
fn parse_rial() {
    let m = parse("200 ریال").unwrap();
    assert_eq!(m.value, 200);
    assert_eq!(m.unit, MoneyUnit::Rial);
}

#[test]
fn parse_words() {
    let m = parse("دو میلیون و پانصد هزار تومان").unwrap();
    assert_eq!(m.value, 2_500_000);
}

#[test]
fn rial_to_toman_conversion() {
    let m = parse("100 ریال").unwrap();
    assert_eq!(m.as_tomans(), 10);
    assert_eq!(m.as_rials(), 100);
}

#[test]
fn toman_to_rial_conversion() {
    let m = parse("۱۰ تومان").unwrap();
    assert_eq!(m.as_rials(), 100);
}

#[test]
fn missing_unit_returns_none() {
    assert!(parse("500").is_none());
}

#[test]
fn display_format() {
    let m = parse("۲ میلیون تومان").unwrap();
    assert!(m.to_string().contains("Toman"));
}
