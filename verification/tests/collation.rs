use sqlite_ip::addr::{IpAddr, Order};
use sqlite_ip::collation::{compare, ip_collate};
use sqlite_ip::ipv4::Ipv4Addr;
use sqlite_ip::ipv6::Ipv6Addr;

const LITERALS: [&str; 12] = [
    "0.0.0.0",
    "1.2.3.4",
    "9.255.255.255",
    "10.0.0.0",
    "127.0.0.1",
    "255.255.255.255",
    "::",
    "::1",
    "::ffff:1.2.3.4",
    "1::",
    "ff02::1",
    "ffff:ffff:ffff:ffff:ffff:ffff:ffff:ffff",
];

#[test]
fn collation_is_reflexive_on_literals() {
    for x in LITERALS {
        assert_eq!(ip_collate(x.as_bytes(), x.as_bytes()), 0, "{}", x);
        assert_eq!(compare(x.as_bytes(), x.as_bytes()), Order::Equal);
    }
}

#[test]
fn collation_is_antisymmetric_on_literals() {
    for (i, a) in LITERALS.iter().enumerate() {
        for (j, b) in LITERALS.iter().enumerate() {
            let expected = if i < j {
                -1
            } else if i == j {
                0
            } else {
                1
            };
            assert_eq!(ip_collate(a.as_bytes(), b.as_bytes()), expected, "{} {}", a, b);
        }
    }
}

#[test]
fn collation_goes_by_the_address_not_the_text() {
    assert_eq!(ip_collate(b"9.0.0.0", b"10.0.0.0"), -1);
    assert_eq!(ip_collate(b"10.0.0.0", b"9.0.0.0"), 1);
    assert_eq!(ip_collate(b"::1", b"0:0:0:0:0:0:0:1"), 0);
    assert_eq!(ip_collate(b"::FFFF:1.2.3.4", b"::ffff:102:304"), 0);
    assert_eq!(ip_collate(b"00ab::", b"AB::"), 0);
    assert_eq!(ip_collate(b"2::", b"10::"), -1);
}

#[test]
fn every_ipv4_address_sorts_before_every_ipv6_address() {
    assert_eq!(ip_collate(b"255.255.255.255", b"::"), -1);
    assert_eq!(ip_collate(b"::", b"255.255.255.255"), 1);
    assert_eq!(ip_collate(b"1.2.3.4", b"::1.2.3.4"), -1);
    assert_eq!(ip_collate(b"::ffff:1.2.3.4", b"1.2.3.4"), 1);
}

#[test]
fn collation_falls_back_to_less() {
    assert_eq!(ip_collate(b"not-an-ip", b"127.0.0.1"), -1);
    assert_eq!(ip_collate(b"127.0.0.1", b"not-an-ip"), -1);
    assert_eq!(ip_collate(b"not-an-ip", b"not-an-ip"), -1);
    assert_eq!(ip_collate(b"", b""), -1);
    assert_eq!(ip_collate(b"\xff", b"127.0.0.1"), -1);
    assert_eq!(ip_collate(b"127.0.0.1", b"\xff"), -1);
    assert_eq!(ip_collate(b"\xff", b"\xff"), -1);
    assert_eq!(ip_collate(b"255.255.255.255", b"\xc3"), -1);
    assert_eq!(compare(b"zzz", b"0.0.0.0"), Order::Less);
}

#[test]
fn order_codes() {
    assert_eq!(Order::Less.code(), -1);
    assert_eq!(Order::Equal.code(), 0);
    assert_eq!(Order::Greater.code(), 1);
}

#[test]
fn addresses_compare_by_family_then_bits() {
    let a = IpAddr::V4(Ipv4Addr { bits: 5 });
    let b = IpAddr::V4(Ipv4Addr { bits: 6 });
    let c = IpAddr::V6(Ipv6Addr { bits: 0 });
    let d = IpAddr::V6(Ipv6Addr { bits: u128::MAX });
    assert_eq!(a.compare(&a), Order::Equal);
    assert_eq!(a.compare(&b), Order::Less);
    assert_eq!(b.compare(&a), Order::Greater);
    assert_eq!(b.compare(&c), Order::Less);
    assert_eq!(c.compare(&b), Order::Greater);
    assert_eq!(c.compare(&d), Order::Less);
    assert_eq!(d.compare(&c), Order::Greater);
    assert_eq!(d.compare(&d), Order::Equal);
}
