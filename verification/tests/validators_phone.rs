use parsitext::validators::phone::{canonicalize, operator, validate, Operator};

#[test]
fn validates_local_format() {
    assert!(validate("09121234567"));
}

#[test]
fn validates_international_plus() {
    assert!(validate("+989121234567"));
}

#[test]
fn validates_international_00() {
    assert!(validate("00989121234567"));
}

#[test]
fn phone_rejects_wrong_country() {
    assert!(!validate("0812345678"));
}

#[test]
fn phone_rejects_short() {
    assert!(!validate("0912123456"));
}

#[test]
fn canonical_form() {
    assert_eq!(
        canonicalize("+989121234567").as_deref(),
        Some("09121234567")
    );
    assert_eq!(
        canonicalize("00989121234567").as_deref(),
        Some("09121234567")
    );
    assert_eq!(canonicalize("09121234567").as_deref(), Some("09121234567"));
}

#[test]
fn operator_detection() {
    assert_eq!(operator("09121234567"), Some(Operator::MCI));
    assert_eq!(operator("09351234567"), Some(Operator::Irancell));
    assert_eq!(operator("09211234567"), Some(Operator::RighTel));
    assert_eq!(operator("09981234567"), Some(Operator::ShatelMobile));
}

#[test]
fn operator_returns_other_for_unknown_prefix() {
    // 0900 is not currently allocated to a major operator.
    assert_eq!(operator("09001234567"), Some(Operator::Other));
}

#[test]
fn operator_persian_name() {
    assert_eq!(Operator::MCI.persian_name(), "همراه اول");
    assert_eq!(Operator::Irancell.persian_name(), "ایرانسل");
}
