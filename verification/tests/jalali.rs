use parsitext::jalali::parse;

#[test]
fn parse_numeric_latin() {
    let d = parse("1402/03/15").unwrap();
    assert_eq!((d.year(), d.month(), d.day()), (1402, 3, 15));
}

#[test]
fn parse_numeric_persian() {
    let d = parse("۱۴۰۲/۰۳/۱۵").unwrap();
    assert_eq!((d.year(), d.month(), d.day()), (1402, 3, 15));
}

#[test]
fn parse_dash_separator() {
    let d = parse("1403-01-01").unwrap();
    assert_eq!((d.year(), d.month(), d.day()), (1403, 1, 1));
}

#[test]
fn parse_textual_persian() {
    let d = parse("۱۵ تیر ۱۴۰۲").unwrap();
    assert_eq!((d.year(), d.month(), d.day()), (1402, 4, 15));
}

#[test]
fn rejects_invalid_calendar_date() {
    // Esfand 30 only exists in leap years.  1404 is not leap.
    assert!(parse("1404/12/30").is_none());
    assert!(parse("1403/12/30").is_some()); // 1403 IS leap
}

#[test]
fn jalali_rejects_garbage() {
    assert!(parse("not a date").is_none());
    assert!(parse("99/99/99").is_none());
}
