use rox::status::{StatusCode, UNRECOGNIZED};

#[test]
fn listed_codes_have_their_numbers_and_phrases() {
    assert_eq!(StatusCode::OK.code(), 200);
    assert_eq!(StatusCode::OK.get_status_message(), "OK");
    assert_eq!(StatusCode::ImATeapot.code(), 418);
    assert_eq!(StatusCode::ImATeapot.get_status_message(), "I'm a teapot");
    assert_eq!(StatusCode::MultiStatus.get_status_message(), "Multi-Status");
    assert_eq!(StatusCode::NetworkAuthenticationRequired.code(), 511);
    assert_eq!(
        StatusCode::ProxyAuthenticationRequired.get_status_message(),
        "Proxy Authentication Required"
    );
    assert_eq!(StatusCode::Continue.to_string(), "100");
}

#[test]
fn parse_finds_listed_codes() {
    assert_eq!(StatusCode::parse("100"), StatusCode::Continue);
    assert_eq!(StatusCode::parse("226"), StatusCode::IMUsed);
    assert_eq!(StatusCode::parse("402"), StatusCode::PaymentRequired);
    assert_eq!(StatusCode::parse("403"), StatusCode::Forbidden);
    assert_eq!(StatusCode::parse("451"), StatusCode::UnavailableForLegalReasons);
    assert_eq!(StatusCode::parse("511"), StatusCode::NetworkAuthenticationRequired);
}

#[test]
fn parse_keeps_the_number_of_an_unlisted_code() {
    assert_eq!(StatusCode::parse("999"), StatusCode::Unknown(999));
    assert_eq!(StatusCode::parse("104"), StatusCode::Unknown(104));
    assert_eq!(StatusCode::parse("0"), StatusCode::Unknown(0));
    assert_eq!(StatusCode::parse("65535"), StatusCode::Unknown(65535));
    assert_eq!(StatusCode::parse("104").code(), 104);
    assert_eq!(StatusCode::parse("104").to_string(), "104");
    assert_eq!(StatusCode::parse("104").get_status_message(), "Unknown");
}

#[test]
fn parse_never_fails() {
    assert_eq!(StatusCode::parse(""), StatusCode::Unknown(UNRECOGNIZED));
    assert_eq!(StatusCode::parse("abc"), StatusCode::Unknown(UNRECOGNIZED));
    assert_eq!(StatusCode::parse("+200"), StatusCode::Unknown(UNRECOGNIZED));
    assert_eq!(StatusCode::parse("65536"), StatusCode::Unknown(UNRECOGNIZED));
    assert_eq!(StatusCode::parse("2 0"), StatusCode::Unknown(UNRECOGNIZED));
    assert_eq!(UNRECOGNIZED, 999);
}

#[test]
fn every_number_survives_the_registry() {
    for n in 0..=u16::MAX {
        let status = StatusCode::from_code(n);
        assert_eq!(status.code(), n);
        assert_eq!(StatusCode::parse(&n.to_string()), status);
        assert_eq!(status.to_string(), n.to_string());
    }
}

#[test]
fn leading_zeros_do_not_change_the_number() {
    assert_eq!(StatusCode::parse("0200"), StatusCode::OK);
}
