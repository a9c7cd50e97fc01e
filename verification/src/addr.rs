//! Addresses of either family: parsing under a requested family, the
//! classification predicates, and the total order used for collation.

use crate::ipv4::{ipv4_value, lemma_ipv4_literal_bytes, Ipv4Addr};
use crate::ipv6::{ipv6_value, lemma_ipv6_literal_bytes, Ipv6Addr};
use vstd::prelude::*;
use vstd::utf8::{is_leading_byte_width_1, partial_valid_utf8_extend_ascii_block, valid_utf8};

verus! {

/// The family that a caller asks a text to be parsed as.
#[derive(Clone, Copy, Debug, PartialEq, Eq, Structural)]
pub enum Family {
    /// Either family; the IPv4 syntax is tried first.
    Any,
    /// IPv4 only.
    V4,
    /// IPv6 only.
    V6,
}

/// An IP address, tagged by its family. Two addresses are equal when their
/// families and their bits are.
#[derive(Clone, Copy, Debug, PartialEq, Eq, Structural)]
pub enum IpAddr {
    V4(Ipv4Addr),
    V6(Ipv6Addr),
}

/// A question that can be asked of an address.
#[derive(Clone, Copy, Debug, PartialEq, Eq, Structural)]
pub enum Predicate {
    /// Is every bit of the address zero?
    Unspecified,
    /// Is it a loopback address: one of `127.0.0.0/8`, or `::1`?
    Loopback,
    /// Is it a multicast address: one of `224.0.0.0/4`, or of `ff00::/8`?
    Multicast,
    /// Is it an IPv4 address?
    Ipv4,
    /// Is it an IPv6 address?
    Ipv6,
}

/// How one address stands to another in the total order.
#[derive(Clone, Copy, Debug, PartialEq, Eq, Structural)]
pub enum Order {
    Less,
    Equal,
    Greater,
}

/// The address that the text `s` stands for under the requested family.
/// Under `Any` a text that is an IPv4 literal is an IPv4 address, and only a
/// text that is none is read as an IPv6 literal. `None` when `s` is no
/// literal of a requested family.
pub open spec fn address_value(s: Seq<u8>, family: Family) -> Option<IpAddr> {
    match family {
        Family::V4 => match ipv4_value(s) {
            Some(a) => Some(IpAddr::V4(a)),
            None => None,
        },
        Family::V6 => match ipv6_value(s) {
            Some(a) => Some(IpAddr::V6(a)),
            None => None,
        },
        Family::Any => match ipv4_value(s) {
            Some(a) => Some(IpAddr::V4(a)),
            None => match ipv6_value(s) {
                Some(a) => Some(IpAddr::V6(a)),
                None => None,
            },
        },
    }
}

/// An IPv6 literal is never an IPv4 literal: the one holds a colon, the
/// other none.
pub proof fn lemma_families_disjoint(s: Seq<u8>)
    ensures
        !(ipv4_value(s) is Some && ipv6_value(s) is Some),
{
    if ipv4_value(s) is Some && ipv6_value(s) is Some {
        lemma_ipv4_literal_bytes(s);
        lemma_ipv6_literal_bytes(s);
    }
}

/// An address literal is plain ASCII, and so well-formed UTF-8: decoding
/// never turns away a text that the address grammar accepts.
pub proof fn lemma_literal_is_utf8(s: Seq<u8>, family: Family)
    requires
        address_value(s, family) is Some,
    ensures
        valid_utf8(s),
{
    if ipv4_value(s) is Some {
        lemma_ipv4_literal_bytes(s);
    }
    if ipv6_value(s) is Some {
        lemma_ipv6_literal_bytes(s);
    }
    assert forall|i: int| 0 <= i < s.len() implies #[trigger] is_leading_byte_width_1(s[i]) by {}
    assert(valid_utf8(s.subrange(0, 0)));
    partial_valid_utf8_extend_ascii_block(s, 0, s.len() as int);
    assert(s.subrange(0, s.len() as int) == s);
}

impl Order {
    /// The number that a host's comparison callback reports for this
    /// outcome: -1, 0 or 1.
    pub open spec fn spec_code(self) -> i32 {
        match self {
            Order::Less => -1i32,
            Order::Equal => 0i32,
            Order::Greater => 1i32,
        }
    }

    /// The number that a host's comparison callback reports for this
    /// outcome: -1, 0 or 1.
    #[verifier::when_used_as_spec(spec_code)]
    pub fn code(self) -> (r: i32)
        ensures
            r == self.spec_code(),
    {
        match self {
            Order::Less => -1,
            Order::Equal => 0,
            Order::Greater => 1,
        }
    }
}

impl IpAddr {
    /// True when the address is an IPv4 address.
    pub open spec fn spec_is_ipv4(&self) -> bool {
        self is V4
    }

    /// True when the address is an IPv6 address.
    pub open spec fn spec_is_ipv6(&self) -> bool {
        self is V6
    }

    /// True for the all-zero address of either family.
    pub open spec fn spec_is_unspecified(&self) -> bool {
        match self {
            IpAddr::V4(a) => a.is_unspecified(),
            IpAddr::V6(a) => a.is_unspecified(),
        }
    }

    /// True for the loopback addresses of either family.
    pub open spec fn spec_is_loopback(&self) -> bool {
        match self {
            IpAddr::V4(a) => a.is_loopback(),
            IpAddr::V6(a) => a.is_loopback(),
        }
    }

    /// True for the multicast addresses of either family.
    pub open spec fn spec_is_multicast(&self) -> bool {
        match self {
            IpAddr::V4(a) => a.is_multicast(),
            IpAddr::V6(a) => a.is_multicast(),
        }
    }

    /// The answer to `predicate` for this address.
    pub open spec fn spec_classify(&self, predicate: Predicate) -> bool {
        match predicate {
            Predicate::Unspecified => self.is_unspecified(),
            Predicate::Loopback => self.is_loopback(),
            Predicate::Multicast => self.is_multicast(),
            Predicate::Ipv4 => self.is_ipv4(),
            Predicate::Ipv6 => self.is_ipv6(),
        }
    }

    /// The place of the address in the total order: its family first, every
    /// IPv4 address before every IPv6 address, then its bits as a number.
    pub open spec fn rank(self) -> (int, int) {
        match self {
            IpAddr::V4(a) => (4, a.bits as int),
            IpAddr::V6(a) => (6, a.bits as int),
        }
    }

    /// How `self` stands to `other` in the total order given by `rank`.
    pub open spec fn order(self, other: IpAddr) -> Order {
        let (f, v) = self.rank();
        let (g, w) = other.rank();
        if f < g || (f == g && v < w) {
            Order::Less
        } else if f == g && v == w {
            Order::Equal
        } else {
            Order::Greater
        }
    }

    /// Parses the whole of `text` as an address of the requested family.
    pub fn parse(text: &[u8], family: Family) -> (r: Option<IpAddr>)
        ensures
            r == address_value(text@, family),
    {
        match family {
            Family::V4 => match Ipv4Addr::parse(text) {
                Some(a) => Some(IpAddr::V4(a)),
                None => None,
            },
            Family::V6 => match Ipv6Addr::parse(text) {
                Some(a) => Some(IpAddr::V6(a)),
                None => None,
            },
            Family::Any => match Ipv4Addr::parse(text) {
                Some(a) => Some(IpAddr::V4(a)),
                None => match Ipv6Addr::parse(text) {
                    Some(a) => Some(IpAddr::V6(a)),
                    None => None,
                },
            },
        }
    }

    /// Tells whether the address is an IPv4 address.
    #[verifier::when_used_as_spec(spec_is_ipv4)]
    pub fn is_ipv4(&self) -> (r: bool)
        ensures
            r == self.spec_is_ipv4(),
    {
        match self {
            IpAddr::V4(_) => true,
            IpAddr::V6(_) => false,
        }
    }

    /// Tells whether the address is an IPv6 address.
    #[verifier::when_used_as_spec(spec_is_ipv6)]
    pub fn is_ipv6(&self) -> (r: bool)
        ensures
            r == self.spec_is_ipv6(),
    {
        match self {
            IpAddr::V4(_) => false,
            IpAddr::V6(_) => true,
        }
    }

    /// Tells whether the address is the all-zero address of its family.
    #[verifier::when_used_as_spec(spec_is_unspecified)]
    pub fn is_unspecified(&self) -> (r: bool)
        ensures
            r == self.spec_is_unspecified(),
    {
        match self {
            IpAddr::V4(a) => a.is_unspecified(),
            IpAddr::V6(a) => a.is_unspecified(),
        }
    }

    /// Tells whether the address is a loopback address of its family.
    #[verifier::when_used_as_spec(spec_is_loopback)]
    pub fn is_loopback(&self) -> (r: bool)
        ensures
            r == self.spec_is_loopback(),
    {
        match self {
            IpAddr::V4(a) => a.is_loopback(),
            IpAddr::V6(a) => a.is_loopback(),
        }
    }

    /// Tells whether the address is a multicast address of its family.
    #[verifier::when_used_as_spec(spec_is_multicast)]
    pub fn is_multicast(&self) -> (r: bool)
        ensures
            r == self.spec_is_multicast(),
    {
        match self {
            IpAddr::V4(a) => a.is_multicast(),
            IpAddr::V6(a) => a.is_multicast(),
        }
    }

    /// Answers `predicate` for this address.
    #[verifier::when_used_as_spec(spec_classify)]
    pub fn classify(&self, predicate: Predicate) -> (r: bool)
        ensures
            r == self.spec_classify(predicate),
    {
        match predicate {
            Predicate::Unspecified => self.is_unspecified(),
            Predicate::Loopback => self.is_loopback(),
            Predicate::Multicast => self.is_multicast(),
            Predicate::Ipv4 => self.is_ipv4(),
            Predicate::Ipv6 => self.is_ipv6(),
        }
    }

    /// Compares two addresses in the total order: an IPv4 address is less
    /// than any IPv6 address, and within a family the bits decide.
    pub fn compare(&self, other: &IpAddr) -> (r: Order)
        ensures
            r == self.order(*other),
    {
        match (self, other) {
            (IpAddr::V4(a), IpAddr::V4(b)) => {
                if a.bits < b.bits {
                    Order::Less
                } else if a.bits == b.bits {
                    Order::Equal
                } else {
                    Order::Greater
                }
            },
            (IpAddr::V4(_), IpAddr::V6(_)) => Order::Less,
            (IpAddr::V6(_), IpAddr::V4(_)) => Order::Greater,
            (IpAddr::V6(a), IpAddr::V6(b)) => {
                if a.bits < b.bits {
                    Order::Less
                } else if a.bits == b.bits {
                    Order::Equal
                } else {
                    Order::Greater
                }
            },
        }
    }
}

} // verus!
