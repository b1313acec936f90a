use parsitext::entity::{EntityKind, EntityRecognizer, Span};

fn er() -> EntityRecognizer {
    EntityRecognizer::new()
}

#[test]
fn detects_phone_mobile() {
    let entities = er().detect("شماره من 09121234567 هست");
    assert_eq!(entities.len(), 1);
    assert_eq!(entities[0].kind, EntityKind::PhoneNumber);
    assert_eq!(entities[0].normalized.as_deref(), Some("09121234567"));
}

#[test]
fn detects_phone_with_plus98() {
    let entities = er().detect("+989121234567");
    assert!(entities.iter().any(|e| e.kind == EntityKind::PhoneNumber));
}

#[test]
fn detects_jalali_numeric() {
    let entities = er().detect("تاریخ: 1402/03/15");
    assert!(entities
        .iter()
        .any(|e| e.kind == EntityKind::JalaliDateNumeric));
}

#[test]
fn detects_jalali_textual() {
    let entities = er().detect("۱۵ تیر ۱۴۰۲");
    assert!(entities
        .iter()
        .any(|e| e.kind == EntityKind::JalaliDateTextual));
}

#[test]
fn detects_money_toman() {
    let entities = er().detect("قیمت ۵۰۰ هزار تومان");
    assert!(entities.iter().any(|e| e.kind == EntityKind::MoneyAmount));
}

#[test]
fn detects_money_rial() {
    let entities = er().detect("هزینه: 200 ریال");
    assert!(entities.iter().any(|e| e.kind == EntityKind::MoneyAmount));
}

#[test]
fn detects_mention() {
    let entities = er().detect("پیام @reza123 رو خوندم");
    assert!(entities.iter().any(|e| e.kind == EntityKind::Mention));
}

#[test]
fn detects_hashtag_persian() {
    let entities = er().detect("#فارسی_آزمایش");
    assert!(entities.iter().any(|e| e.kind == EntityKind::Hashtag));
}

#[test]
fn detects_url() {
    let entities = er().detect("به https://example.ir مراجعه کنید");
    assert!(entities.iter().any(|e| e.kind == EntityKind::Url));
}

#[test]
fn detects_email() {
    let entities = er().detect("ایمیل: reza@example.com");
    assert!(entities.iter().any(|e| e.kind == EntityKind::Email));
}

#[test]
fn no_overlap_phone_vs_national_id() {
    let entities = er().detect("09121234567");
    let kinds: Vec<_> = entities.iter().map(|e| &e.kind).collect();
    assert!(
        !kinds.contains(&&EntityKind::NationalId) || !kinds.contains(&&EntityKind::PhoneNumber)
    );
}

#[test]
fn span_len_matches_text() {
    let entities = er().detect("@hello");
    assert!(!entities.is_empty());
    let e = &entities[0];
    assert_eq!(e.span.len(), e.text.len());
}

#[test]
fn display_entity() {
    let entities = er().detect("@reza123");
    assert_eq!(entities[0].to_string(), "[Mention: \"@reza123\"]");
}

#[test]
fn span_is_empty_false() {
    let s = Span { start: 0, end: 4 };
    assert!(!s.is_empty());
    assert_eq!(s.len(), 4);
}

#[test]
fn span_is_empty_true() {
    let s = Span { start: 3, end: 3 };
    assert!(s.is_empty());
    assert_eq!(s.len(), 0);
}
