use parsitext::validators::bill::{
    bill_type, validate, validate_bill_id, validate_pay_id, weighted_check, BillType,
};

#[test]
fn valid_bill_id() {
    assert!(validate_bill_id("7748317801"));
}

#[test]
fn invalid_bill_id_checksum() {
    assert!(!validate_bill_id("7748317800"));
    assert!(!validate_bill_id("7748317802"));
}

#[test]
fn rejects_short_bill_id() {
    assert!(!validate_bill_id("12345"));
    assert!(!validate_bill_id(""));
}

#[test]
fn bill_accepts_persian_digits() {
    assert!(validate_bill_id("۷۷۴۸۳۱۷۸۰۱"));
}

#[test]
fn pay_id_round_trip() {
    assert!(validate_pay_id("7748317801", "1234986"));
    assert!(!validate_pay_id("7748317801", "1234987"));
}

#[test]
fn full_validate() {
    assert!(validate("7748317801", "1234986"));
    assert!(!validate("7748317800", "1234986")); // bill bad
    assert!(!validate("7748317801", "1234987")); // pay bad
}

#[test]
fn pay_id_short() {
    assert!(!validate_pay_id("7748317801", "12"));
}

#[test]
fn bill_type_detection() {
    // The digit before the check identifies the type.
    // Build a bill-id ending with `1<check>` (Water) and another with `2<check>` (Electricity).
    let body_w = "774831781";
    let bill_w = format!("{body_w}{}", weighted_check(body_w.as_bytes()));
    assert!(validate_bill_id(&bill_w));
    assert_eq!(bill_type(&bill_w), Some(BillType::Water));

    let body_e = "774831782";
    let bill_e = format!("{body_e}{}", weighted_check(body_e.as_bytes()));
    assert!(validate_bill_id(&bill_e));
    assert_eq!(bill_type(&bill_e), Some(BillType::Electricity));
}

#[test]
fn bill_type_persian_names() {
    assert_eq!(BillType::Water.persian_name(), "آب");
    assert_eq!(BillType::Gas.persian_name(), "گاز");
    assert_eq!(BillType::Other.persian_name(), "سایر");
}

#[test]
fn bill_type_display() {
    assert_eq!(BillType::Water.to_string(), "Water");
    assert_eq!(BillType::DrivingFine.to_string(), "DrivingFine");
}

#[test]
fn bill_type_too_short() {
    assert_eq!(bill_type("1"), None);
}
