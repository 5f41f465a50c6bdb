use chat_core::validate_port_arg;

#[test]
fn accepts_ordinary_ports() {
    assert_eq!(validate_port_arg("8080").as_deref(), Some("8080"));
    assert_eq!(validate_port_arg("0").as_deref(), Some("0"));
    assert_eq!(validate_port_arg("65535").as_deref(), Some("65535"));
}

#[test]
fn accepts_plus_sign_and_leading_zeros() {
    assert_eq!(validate_port_arg("+80").as_deref(), Some("+80"));
    assert_eq!(validate_port_arg("007").as_deref(), Some("007"));
}

#[test]
fn rejects_out_of_range() {
    assert!(validate_port_arg("65536").is_none());
    assert!(validate_port_arg("99999999999999999999").is_none());
}

#[test]
fn rejects_malformed() {
    assert!(validate_port_arg("").is_none());
    assert!(validate_port_arg("+").is_none());
    assert!(validate_port_arg("-1").is_none());
    assert!(validate_port_arg("12a").is_none());
    assert!(validate_port_arg(" 80").is_none());
    assert!(validate_port_arg("8 0").is_none());
    assert!(validate_port_arg("٨٠").is_none());
}

#[test]
fn agrees_with_u16_parsing() {
    for arg in ["8080", "0", "65535", "+80", "007", "", "+", "-1", "12a", " 80", "65536"] {
        assert_eq!(validate_port_arg(arg).is_some(), arg.parse::<u16>().is_ok());
    }
}
