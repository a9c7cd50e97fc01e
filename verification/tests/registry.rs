use sqlite_ip::{
    call, sqlite3_ip_init, Build, Family, Flags, IpError, Operation, Output, Value, ValueType,
    COLLATION_NAME,
};

const BUILD: Build<'static> = Build {
    version: "0.1.0",
    source: "deadbeef",
};

fn text(s: &str) -> Vec<Value<'_>> {
    vec![Value {
        value_type: ValueType::Text,
        bytes: s.as_bytes(),
    }]
}

#[test]
fn table_lists_every_operation_once_in_registration_order() {
    let table = sqlite3_ip_init();
    let names: Vec<(&str, i32)> = table.iter().map(|op| (op.name(), op.arity())).collect();
    assert_eq!(
        names,
        vec![
            ("version", 0),
            ("debug_info", 0),
            ("ip_valid", 1),
            ("ip_is_unspecified", 1),
            ("ip_is_loopback", 1),
            ("ip_is_multicast", 1),
            ("ip_is_ipv4", 1),
            ("ip_is_ipv6", 1),
            ("ipv4_valid", 1),
            ("ipv6_valid", 1),
        ]
    );
    assert_eq!(
        table,
        vec![
            Operation::Version,
            Operation::Debug,
            Operation::Valid,
            Operation::IsUnspecified,
            Operation::IsLoopback,
            Operation::IsMulticast,
            Operation::IsIpv4,
            Operation::IsIpv6,
            Operation::Ipv4Valid,
            Operation::Ipv6Valid,
        ]
    );
}

#[test]
fn every_operation_is_marked_utf8_and_deterministic() {
    for operation in sqlite3_ip_init() {
        assert_eq!(
            operation.flags(),
            Flags {
                utf8: true,
                deterministic: true
            }
        );
    }
}

#[test]
fn collation_is_named_ip() {
    assert_eq!(COLLATION_NAME, "ip");
}

#[test]
fn reports_are_registered_under_their_names() {
    assert_eq!(Operation::Version.name(), "version");
    assert_eq!(Operation::Debug.name(), "debug_info");
    assert_eq!(Operation::Version.arity(), 0);
    assert_eq!(Operation::Debug.arity(), 0);
    let table = sqlite3_ip_init();
    assert!(table.iter().all(|op| op.name() != "ip_version"));
    assert!(table.iter().all(|op| op.name() != "ip_debug"));
    assert_eq!(table.iter().filter(|op| op.name() == "version").count(), 1);
    assert_eq!(table.iter().filter(|op| op.name() == "debug_info").count(), 1);
}

#[test]
fn reports_ignore_their_arguments() {
    assert_eq!(
        call(Operation::Version, &[], &BUILD),
        Ok(Output::Text("v0.1.0".to_string()))
    );
    assert_eq!(
        call(Operation::Version, &text("junk"), &BUILD),
        Ok(Output::Text("v0.1.0".to_string()))
    );
    assert_eq!(
        call(Operation::Debug, &[], &BUILD),
        Ok(Output::Text(
            "Version: v0.1.0\n    Source: deadbeef\n    ".to_string()
        ))
    );
}

#[test]
fn call_dispatches_probes_and_predicates() {
    let v = text("127.0.0.1");
    assert_eq!(call(Operation::Valid, &v, &BUILD), Ok(Output::Bool(true)));
    assert_eq!(call(Operation::Ipv4Valid, &v, &BUILD), Ok(Output::Bool(true)));
    assert_eq!(call(Operation::Ipv6Valid, &v, &BUILD), Ok(Output::Bool(false)));
    assert_eq!(call(Operation::IsLoopback, &v, &BUILD), Ok(Output::Bool(true)));
    assert_eq!(call(Operation::IsUnspecified, &v, &BUILD), Ok(Output::Bool(false)));
    assert_eq!(call(Operation::IsMulticast, &v, &BUILD), Ok(Output::Bool(false)));
    assert_eq!(call(Operation::IsIpv4, &v, &BUILD), Ok(Output::Bool(true)));
    assert_eq!(call(Operation::IsIpv6, &v, &BUILD), Ok(Output::Bool(false)));
    let v = text("ff02::1");
    assert_eq!(call(Operation::Valid, &v, &BUILD), Ok(Output::Bool(true)));
    assert_eq!(call(Operation::Ipv4Valid, &v, &BUILD), Ok(Output::Bool(false)));
    assert_eq!(call(Operation::Ipv6Valid, &v, &BUILD), Ok(Output::Bool(true)));
    assert_eq!(call(Operation::IsLoopback, &v, &BUILD), Ok(Output::Bool(false)));
    assert_eq!(call(Operation::IsMulticast, &v, &BUILD), Ok(Output::Bool(true)));
    assert_eq!(call(Operation::IsIpv4, &v, &BUILD), Ok(Output::Bool(false)));
    assert_eq!(call(Operation::IsIpv6, &v, &BUILD), Ok(Output::Bool(true)));
    let v = text("::");
    assert_eq!(call(Operation::IsUnspecified, &v, &BUILD), Ok(Output::Bool(true)));
}

#[test]
fn call_passes_failures_on() {
    let v = text("not-an-ip");
    assert_eq!(call(Operation::Valid, &v, &BUILD), Ok(Output::Bool(false)));
    assert_eq!(
        call(Operation::IsLoopback, &v, &BUILD),
        Err(IpError::Syntax(Family::Any))
    );
    assert_eq!(
        call(Operation::IsIpv4, &[], &BUILD),
        Err(IpError::MissingArgument)
    );
    assert_eq!(
        call(Operation::Valid, &[], &BUILD),
        Err(IpError::MissingArgument)
    );
    let blob = [Value {
        value_type: ValueType::Blob,
        bytes: b"127.0.0.1",
    }];
    assert_eq!(
        call(Operation::IsLoopback, &blob, &BUILD),
        Err(IpError::TypeMismatch)
    );
    let bad = [Value {
        value_type: ValueType::Text,
        bytes: b"\xff",
    }];
    assert_eq!(call(Operation::IsLoopback, &bad, &BUILD), Err(IpError::NotUtf8));
    assert_eq!(call(Operation::Ipv6Valid, &bad, &BUILD), Ok(Output::Bool(false)));
}
