use parsitext::time_diff::{describe, describe_between, to_persian_digits};

const MINUTE: i64 = parsitext::time_diff::MINUTE as i64;
const HOUR: i64 = parsitext::time_diff::HOUR as i64;
const DAY: i64 = parsitext::time_diff::DAY as i64;
const WEEK: i64 = parsitext::time_diff::WEEK as i64;
const MONTH: i64 = parsitext::time_diff::MONTH as i64;
const YEAR: i64 = parsitext::time_diff::YEAR as i64;

#[test]
fn just_now() {
    assert_eq!(describe(0), "همین الان");
    assert_eq!(describe(30), "همین الان");
    assert_eq!(describe(-59), "همین الان");
}

#[test]
fn minutes() {
    assert_eq!(describe(-MINUTE), "۱ دقیقه پیش");
    assert_eq!(describe(15 * MINUTE), "۱۵ دقیقه دیگر");
}

#[test]
fn hours_days_weeks() {
    assert_eq!(describe(-HOUR), "۱ ساعت پیش");
    assert_eq!(describe(2 * DAY), "۲ روز دیگر");
    assert_eq!(describe(-3 * WEEK), "۳ هفته پیش");
}

#[test]
fn months_years() {
    assert_eq!(describe(2 * MONTH), "۲ ماه دیگر");
    assert_eq!(describe(-5 * YEAR), "۵ سال پیش");
}

#[test]
fn between_helper() {
    let now = 1_700_000_000;
    assert_eq!(describe_between(now, now + 3600), "۱ ساعت دیگر");
    assert_eq!(describe_between(now, now - 86400), "۱ روز پیش");
}

#[test]
fn between_saturates_no_overflow() {
    // i64::MIN .. 0 must not overflow.
    let s = describe_between(0, i64::MIN);
    assert!(s.ends_with("پیش"));
}

#[test]
fn persian_digits_basic() {
    assert_eq!(to_persian_digits(0), "۰");
    assert_eq!(to_persian_digits(123), "۱۲۳");
}
