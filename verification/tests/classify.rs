use sqlite_ip::addr::{Family, IpAddr, Predicate};
use sqlite_ip::error::IpError;
use sqlite_ip::ipv4::Ipv4Addr;
use sqlite_ip::ipv6::Ipv6Addr;
use sqlite_ip::scalar::{
    classify, ip_debug, ip_is_ipv4, ip_is_ipv6, ip_is_loopback, ip_is_multicast,
    ip_is_unspecified, ip_valid, ip_version, ipv4_valid, ipv6_valid, probe, Build,
};
use sqlite_ip::value::{
    parse_value, value_ipaddr, value_ipv4addr, value_ipv6addr, Value, ValueType,
};

fn text(s: &str) -> Vec<Value<'_>> {
    vec![Value {
        value_type: ValueType::Text,
        bytes: s.as_bytes(),
    }]
}

fn raw(value_type: ValueType, bytes: &[u8]) -> Vec<Value<'_>> {
    vec![Value { value_type, bytes }]
}

#[test]
fn unspecified_scenarios() {
    assert_eq!(ip_is_unspecified(&text("0.0.0.0")), Ok(true));
    assert_eq!(ip_is_unspecified(&text("::")), Ok(true));
    assert_eq!(ip_is_unspecified(&text("127.0.0.1")), Ok(false));
    assert_eq!(ip_is_unspecified(&text("0.0.0.1")), Ok(false));
    assert_eq!(ip_is_unspecified(&text("::1")), Ok(false));
    assert_eq!(ip_is_unspecified(&text("0:0:0:0:0:0:0:0")), Ok(true));
    assert_eq!(ip_is_unspecified(&text("::0.0.0.0")), Ok(true));
}

#[test]
fn loopback_scenarios() {
    assert_eq!(ip_is_loopback(&text("127.0.0.1")), Ok(true));
    assert_eq!(ip_is_loopback(&text("::1")), Ok(true));
    assert_eq!(ip_is_loopback(&text("10.0.0.1")), Ok(false));
    assert_eq!(ip_is_loopback(&text("127.0.0.0")), Ok(true));
    assert_eq!(ip_is_loopback(&text("127.255.255.255")), Ok(true));
    assert_eq!(ip_is_loopback(&text("126.255.255.255")), Ok(false));
    assert_eq!(ip_is_loopback(&text("128.0.0.0")), Ok(false));
    assert_eq!(ip_is_loopback(&text("::")), Ok(false));
    assert_eq!(ip_is_loopback(&text("::2")), Ok(false));
    assert_eq!(ip_is_loopback(&text("::ffff:127.0.0.1")), Ok(false));
    assert_eq!(ip_is_loopback(&text("0:0:0:0:0:0:0:1")), Ok(true));
}

#[test]
fn multicast_scenarios() {
    assert_eq!(ip_is_multicast(&text("224.0.0.1")), Ok(true));
    assert_eq!(ip_is_multicast(&text("ff02::1")), Ok(true));
    assert_eq!(ip_is_multicast(&text("8.8.8.8")), Ok(false));
    assert_eq!(ip_is_multicast(&text("224.0.0.0")), Ok(true));
    assert_eq!(ip_is_multicast(&text("239.255.255.255")), Ok(true));
    assert_eq!(ip_is_multicast(&text("223.255.255.255")), Ok(false));
    assert_eq!(ip_is_multicast(&text("240.0.0.0")), Ok(false));
    assert_eq!(ip_is_multicast(&text("ff00::")), Ok(true));
    assert_eq!(
        ip_is_multicast(&text("ffff:ffff:ffff:ffff:ffff:ffff:ffff:ffff")),
        Ok(true)
    );
    assert_eq!(
        ip_is_multicast(&text("feff:ffff:ffff:ffff:ffff:ffff:ffff:ffff")),
        Ok(false)
    );
    assert_eq!(ip_is_multicast(&text("::ffff:224.0.0.1")), Ok(false));
}

#[test]
fn validity_scenarios() {
    assert_eq!(ip_valid(&text("999.999.999.999")), Ok(false));
    assert_eq!(ip_valid(&text("abc")), Ok(false));
    assert_eq!(ip_valid(&text("::1")), Ok(true));
    assert_eq!(ip_valid(&text("1.2.3.4")), Ok(true));
    assert_eq!(ip_valid(&text("")), Ok(false));
}

#[test]
fn malformed_input_fails_the_predicates() {
    let e = Err(IpError::Syntax(Family::Any));
    assert_eq!(ip_is_loopback(&text("not-an-ip")), e);
    assert_eq!(ip_is_unspecified(&text("not-an-ip")), e);
    assert_eq!(ip_is_multicast(&text("not-an-ip")), e);
    assert_eq!(ip_is_ipv4(&text("not-an-ip")), e);
    assert_eq!(ip_is_ipv6(&text("not-an-ip")), e);
    assert_eq!(ip_is_loopback(&text("")), e);
}

#[test]
fn ipv4_literals_are_ipv4_and_not_ipv6() {
    for s in ["0.0.0.0", "127.0.0.1", "255.255.255.255", "10.20.30.40"] {
        assert_eq!(ipv4_valid(&text(s)), Ok(true), "{}", s);
        assert_eq!(ip_is_ipv4(&text(s)), Ok(true), "{}", s);
        assert_eq!(ip_is_ipv6(&text(s)), Ok(false), "{}", s);
        assert_eq!(ipv6_valid(&text(s)), Ok(false), "{}", s);
        assert_eq!(ip_valid(&text(s)), Ok(true), "{}", s);
    }
}

#[test]
fn ipv6_literals_are_ipv6_and_not_ipv4() {
    for s in ["::", "::1", "ff02::1", "1:2:3:4:5:6:7:8", "::ffff:1.2.3.4"] {
        assert_eq!(ipv6_valid(&text(s)), Ok(true), "{}", s);
        assert_eq!(ip_is_ipv6(&text(s)), Ok(true), "{}", s);
        assert_eq!(ip_is_ipv4(&text(s)), Ok(false), "{}", s);
        assert_eq!(ipv4_valid(&text(s)), Ok(false), "{}", s);
        assert_eq!(ip_valid(&text(s)), Ok(true), "{}", s);
    }
}

#[test]
fn missing_argument_fails_every_call() {
    let none: Vec<Value<'static>> = vec![];
    let e = Err(IpError::MissingArgument);
    assert_eq!(ip_valid(&none), e);
    assert_eq!(ipv4_valid(&none), e);
    assert_eq!(ipv6_valid(&none), e);
    assert_eq!(ip_is_unspecified(&none), e);
    assert_eq!(ip_is_loopback(&none), e);
    assert_eq!(ip_is_multicast(&none), e);
    assert_eq!(ip_is_ipv4(&none), e);
    assert_eq!(ip_is_ipv6(&none), e);
    assert_eq!(probe(&none, Family::Any), e);
    assert_eq!(classify(&none, Predicate::Loopback), e);
}

#[test]
fn only_the_first_argument_counts() {
    let mut values = text("127.0.0.1");
    values.extend(text("not-an-ip"));
    assert_eq!(ip_is_loopback(&values), Ok(true));
    assert_eq!(ip_valid(&values), Ok(true));
    let mut values = text("not-an-ip");
    values.extend(text("127.0.0.1"));
    assert_eq!(ip_valid(&values), Ok(false));
}

#[test]
fn values_that_are_not_text_are_a_type_mismatch() {
    for t in [
        ValueType::Integer,
        ValueType::Float,
        ValueType::Blob,
        ValueType::Null,
    ] {
        let v = raw(t, b"127.0.0.1");
        assert_eq!(value_ipaddr(&v[0]), Err(IpError::TypeMismatch));
        assert_eq!(value_ipv4addr(&v[0]), Err(IpError::TypeMismatch));
        assert_eq!(value_ipv6addr(&v[0]), Err(IpError::TypeMismatch));
        assert_eq!(ip_is_loopback(&v), Err(IpError::TypeMismatch));
        assert_eq!(ip_valid(&v), Ok(false));
        assert_eq!(ipv4_valid(&v), Ok(false));
        assert_eq!(ipv6_valid(&v), Ok(false));
    }
    let v = raw(ValueType::Blob, &[0xff]);
    assert_eq!(value_ipaddr(&v[0]), Err(IpError::TypeMismatch));
}

#[test]
fn bytes_that_are_not_utf8_are_told_from_bad_syntax() {
    for bytes in [
        &[0xff][..],
        &[0x80][..],
        &[0xc0, 0x80][..],
        &[0xc3][..],
        &[0xe0, 0x80, 0x80][..],
        &[0xed, 0xa0, 0x80][..],
        &[0xf4, 0x90, 0x80, 0x80][..],
        &[0xf8, 0x88, 0x80, 0x80, 0x80][..],
        b"127.0.0.1\xff",
    ] {
        let v = raw(ValueType::Text, bytes);
        assert_eq!(value_ipaddr(&v[0]), Err(IpError::NotUtf8), "{:?}", bytes);
        assert_eq!(value_ipv4addr(&v[0]), Err(IpError::NotUtf8));
        assert_eq!(value_ipv6addr(&v[0]), Err(IpError::NotUtf8));
        assert_eq!(ip_is_ipv4(&v), Err(IpError::NotUtf8));
        assert_eq!(ip_valid(&v), Ok(false));
    }
    for s in ["é", "127.0.0.1é", "日本語", "\u{10ffff}", "\u{0}"] {
        let v = text(s);
        assert_eq!(
            value_ipaddr(&v[0]),
            Err(IpError::Syntax(Family::Any)),
            "{:?}",
            s
        );
    }
}

#[test]
fn syntax_errors_name_the_requested_family() {
    let v = text("nope");
    assert_eq!(value_ipaddr(&v[0]), Err(IpError::Syntax(Family::Any)));
    assert_eq!(value_ipv4addr(&v[0]), Err(IpError::Syntax(Family::V4)));
    assert_eq!(value_ipv6addr(&v[0]), Err(IpError::Syntax(Family::V6)));
    let v = text("::1");
    assert_eq!(value_ipv4addr(&v[0]), Err(IpError::Syntax(Family::V4)));
    let v = text("1.2.3.4");
    assert_eq!(value_ipv6addr(&v[0]), Err(IpError::Syntax(Family::V6)));
}

#[test]
fn parsed_values_carry_the_address() {
    let v = text("1.2.3.4");
    let a = IpAddr::V4(Ipv4Addr { bits: 0x0102_0304 });
    assert_eq!(value_ipaddr(&v[0]), Ok(a));
    assert_eq!(value_ipv4addr(&v[0]), Ok(a));
    assert_eq!(parse_value(&v[0], Family::Any), Ok(a));
    let v = text("::1.2.3.4");
    let a = IpAddr::V6(Ipv6Addr { bits: 0x0102_0304 });
    assert_eq!(value_ipaddr(&v[0]), Ok(a));
    assert_eq!(value_ipv6addr(&v[0]), Ok(a));
    assert_eq!(parse_value(&v[0], Family::V6), Ok(a));
}

#[test]
fn empty_text_is_bad_syntax_not_bad_encoding() {
    let v = text("");
    assert_eq!(value_ipaddr(&v[0]), Err(IpError::Syntax(Family::Any)));
}

#[test]
fn error_messages() {
    assert_eq!(
        IpError::MissingArgument.message(),
        "Expected 1st argument as IP address"
    );
    assert_eq!(IpError::TypeMismatch.message(), "TODO");
    assert_eq!(IpError::NotUtf8.message(), "Expected UTF8 in IpAddress");
    assert_eq!(
        IpError::Syntax(Family::Any).message(),
        "Error parsing IP address: invalid IP address syntax"
    );
    assert_eq!(
        IpError::Syntax(Family::V4).message(),
        "Error parsing IP address: invalid IPv4 address syntax"
    );
    assert_eq!(
        IpError::Syntax(Family::V6).message(),
        "Error parsing IP address: invalid IPv6 address syntax"
    );
    assert_eq!(Family::Any.syntax_text(), "invalid IP address syntax");
}

#[test]
fn classify_answers_each_predicate() {
    let a = IpAddr::V4(Ipv4Addr::from_octets(127, 0, 0, 1));
    assert!(a.classify(Predicate::Loopback));
    assert!(a.classify(Predicate::Ipv4));
    assert!(!a.classify(Predicate::Ipv6));
    assert!(!a.classify(Predicate::Multicast));
    assert!(!a.classify(Predicate::Unspecified));
    let b = IpAddr::V6(Ipv6Addr { bits: 0 });
    assert!(b.classify(Predicate::Unspecified));
    assert!(b.classify(Predicate::Ipv6));
    assert!(!b.classify(Predicate::Ipv4));
    assert!(!b.classify(Predicate::Loopback));
    assert!(!b.classify(Predicate::Multicast));
    assert_eq!(classify(&text("ff02::1"), Predicate::Multicast), Ok(true));
    assert_eq!(probe(&text("ff02::1"), Family::V6), Ok(true));
    assert_eq!(probe(&text("ff02::1"), Family::V4), Ok(false));
}

#[test]
fn version_is_prefixed() {
    let build = Build {
        version: "0.1.0",
        source: "abc123",
    };
    assert_eq!(ip_version(&build), "v0.1.0");
    let build = Build {
        version: "12.34.56-rc.1",
        source: "",
    };
    assert_eq!(ip_version(&build), "v12.34.56-rc.1");
    let build = Build {
        version: "",
        source: "x",
    };
    assert_eq!(ip_version(&build), "v");
}

#[test]
fn debug_reports_version_and_source() {
    let build = Build {
        version: "0.1.0",
        source: "abc123",
    };
    assert_eq!(ip_debug(&build), "Version: v0.1.0\n    Source: abc123\n    ");
    let build = Build {
        version: "2.0.0",
        source: "",
    };
    assert_eq!(ip_debug(&build), "Version: v2.0.0\n    Source: \n    ");
}
