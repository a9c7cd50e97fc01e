//! IPv4 addresses and their dotted-decimal literals.

use crate::text::{
    decimal_value, fields, find_byte, is_digit, is_octet_numeral, lemma_fields_cover,
    lemma_fields_join, lemma_fields_nonempty, lemma_fields_single, lemma_fields_step, read_octet,
    DOT,
};
use vstd::prelude::*;

verus! {

/// An IPv4 address: 32 bits, the first octet of the dotted form in the
/// highest byte. Two addresses are equal when their bits are.
#[derive(Clone, Copy, Debug, PartialEq, Eq, Structural)]
pub struct Ipv4Addr {
    pub bits: u32,
}

/// The 32-bit number whose bytes, highest first, are `a`, `b`, `c`, `d`.
pub open spec fn quad_bits(a: int, b: int, c: int, d: int) -> int {
    a * 0x100_0000 + b * 0x1_0000 + c * 0x100 + d
}

/// The address that the text `s` stands for as an IPv4 literal: four decimal
/// octets separated by dots. `None` when `s` is no such literal.
pub open spec fn ipv4_value(s: Seq<u8>) -> Option<Ipv4Addr> {
    let f = fields(s, DOT);
    if f.len() == 4 && is_octet_numeral(f[0]) && is_octet_numeral(f[1]) && is_octet_numeral(f[2])
        && is_octet_numeral(f[3]) {
        Some(
            Ipv4Addr {
                bits: quad_bits(
                    decimal_value(f[0]),
                    decimal_value(f[1]),
                    decimal_value(f[2]),
                    decimal_value(f[3]),
                ) as u32,
            },
        )
    } else {
        None
    }
}

/// An IPv4 literal holds nothing but decimal digits and dots.
pub proof fn lemma_ipv4_literal_bytes(s: Seq<u8>)
    requires
        ipv4_value(s) is Some,
    ensures
        forall|i: int| 0 <= i < s.len() ==> is_digit(#[trigger] s[i]) || s[i] == DOT,
{
    let p = |c: u8| is_digit(c) || c == DOT;
    let f = fields(s, DOT);
    assert forall|k: int, j: int| 0 <= k < f.len() && 0 <= j < f[k].len() implies p(
        #[trigger] f[k][j],
    ) by {
        assert(is_octet_numeral(f[k]));
    }
    lemma_fields_cover(s, DOT, p);
    assert forall|i: int| 0 <= i < s.len() implies is_digit(#[trigger] s[i]) || s[i] == DOT by {
        assert(p(s[i]));
    }
}

/// The decimal numeral of the octet `n` without leading zeros.
pub open spec fn octet_text(n: int) -> Seq<u8> {
    if n < 10 {
        seq![(48 + n) as u8]
    } else if n < 100 {
        seq![(48 + n / 10) as u8, (48 + n % 10) as u8]
    } else {
        seq![(48 + n / 100) as u8, (48 + n / 10 % 10) as u8, (48 + n % 10) as u8]
    }
}

/// The dotted form `a.b.c.d` of four octets.
pub open spec fn quad_text(a: int, b: int, c: int, d: int) -> Seq<u8> {
    octet_text(a) + seq![DOT] + (octet_text(b) + seq![DOT] + (octet_text(c) + seq![DOT]
        + octet_text(d)))
}

/// The decimal numeral of an octet is an octet numeral, and stands for that
/// octet.
pub proof fn lemma_octet_text(n: int)
    requires
        0 <= n <= 255,
    ensures
        is_octet_numeral(octet_text(n)),
        decimal_value(octet_text(n)) == n,
{
    let t = octet_text(n);
    reveal_with_fuel(decimal_value, 4);
    if n < 10 {
        assert(t.drop_last() == Seq::<u8>::empty());
    } else if n < 100 {
        assert(t.drop_last() == seq![(48 + n / 10) as u8]);
        assert(t.drop_last().drop_last() == Seq::<u8>::empty());
    } else {
        assert(t.drop_last() == seq![(48 + n / 100) as u8, (48 + n / 10 % 10) as u8]);
        assert(t.drop_last().drop_last() == seq![(48 + n / 100) as u8]);
        assert(t.drop_last().drop_last().drop_last() == Seq::<u8>::empty());
    }
}

/// Every IPv4 address has a literal: the dotted form of its four octets
/// stands for the address that holds them, highest first.
pub proof fn lemma_quad_text_value(a: int, b: int, c: int, d: int)
    requires
        0 <= a <= 255,
        0 <= b <= 255,
        0 <= c <= 255,
        0 <= d <= 255,
    ensures
        ipv4_value(quad_text(a, b, c, d)) == Some(
            Ipv4Addr { bits: quad_bits(a, b, c, d) as u32 },
        ),
{
    lemma_octet_text(a);
    lemma_octet_text(b);
    lemma_octet_text(c);
    lemma_octet_text(d);
    let ta = octet_text(a);
    let tb = octet_text(b);
    let tc = octet_text(c);
    let td = octet_text(d);
    lemma_fields_single(td, DOT);
    lemma_fields_join(tc, td, DOT);
    lemma_fields_join(tb, tc + seq![DOT] + td, DOT);
    lemma_fields_join(ta, tb + seq![DOT] + (tc + seq![DOT] + td), DOT);
    let f = fields(quad_text(a, b, c, d), DOT);
    assert(f == seq![ta, tb, tc, td]);
}

impl Ipv4Addr {
    /// True for `0.0.0.0`, the address whose bits are all zero.
    pub open spec fn spec_is_unspecified(&self) -> bool {
        self.bits == 0
    }

    /// True for the addresses of `127.0.0.0/8`.
    pub open spec fn spec_is_loopback(&self) -> bool {
        0x7f00_0000 <= self.bits <= 0x7fff_ffff
    }

    /// True for the addresses of `224.0.0.0/4`.
    pub open spec fn spec_is_multicast(&self) -> bool {
        0xe000_0000 <= self.bits <= 0xefff_ffff
    }

    /// The address `a.b.c.d`.
    pub fn from_octets(a: u8, b: u8, c: u8, d: u8) -> (r: Ipv4Addr)
        ensures
            r.bits == quad_bits(a as int, b as int, c as int, d as int),
    {
        Ipv4Addr {
            bits: (a as u32) * 0x100_0000 + (b as u32) * 0x1_0000 + (c as u32) * 0x100 + (d as u32),
        }
    }

    /// Tells whether this is the unspecified address `0.0.0.0`.
    #[verifier::when_used_as_spec(spec_is_unspecified)]
    pub fn is_unspecified(&self) -> (r: bool)
        ensures
            r == self.spec_is_unspecified(),
    {
        self.bits == 0
    }

    /// Tells whether this is a loopback address, one of `127.0.0.0/8`.
    #[verifier::when_used_as_spec(spec_is_loopback)]
    pub fn is_loopback(&self) -> (r: bool)
        ensures
            r == self.spec_is_loopback(),
    {
        0x7f00_0000 <= self.bits && self.bits <= 0x7fff_ffff
    }

    /// Tells whether this is a multicast address, one of `224.0.0.0/4`.
    #[verifier::when_used_as_spec(spec_is_multicast)]
    pub fn is_multicast(&self) -> (r: bool)
        ensures
            r == self.spec_is_multicast(),
    {
        0xe000_0000 <= self.bits && self.bits <= 0xefff_ffff
    }

    /// Parses the whole of `text` as an IPv4 literal.
    pub fn parse(text: &[u8]) -> (r: Option<Ipv4Addr>)
        ensures
            r == ipv4_value(text@),
    {
        assert(text@.subrange(0, text@.len() as int) == text@);
        Ipv4Addr::parse_range(text, 0, text.len())
    }

    /// Parses the stretch `text[lo..hi]` as an IPv4 literal.
    pub fn parse_range(text: &[u8], lo: usize, hi: usize) -> (r: Option<Ipv4Addr>)
        requires
            lo <= hi <= text.len(),
        ensures
            r == ipv4_value(text@.subrange(lo as int, hi as int)),
    {
        let ghost s = text@;
        let ghost f = fields(s.subrange(lo as int, hi as int), DOT);
        let e0 = find_byte(text, lo, hi, DOT);
        proof {
            lemma_fields_step(s, lo as int, e0 as int, hi as int, DOT);
        }
        if e0 == hi {
            return None;
        }
        proof {
            lemma_fields_nonempty(s.subrange(e0 + 1, hi as int), DOT);
        }
        let a = match read_octet(text, lo, e0) {
            Some(a) => a,
            None => {
                assert(f[0] == s.subrange(lo as int, e0 as int));
                return None;
            },
        };
        let e1 = find_byte(text, e0 + 1, hi, DOT);
        proof {
            lemma_fields_step(s, e0 + 1, e1 as int, hi as int, DOT);
        }
        if e1 == hi {
            assert(f.len() == 2);
            return None;
        }
        proof {
            lemma_fields_nonempty(s.subrange(e1 + 1, hi as int), DOT);
        }
        let b = match read_octet(text, e0 + 1, e1) {
            Some(b) => b,
            None => {
                assert(f[1] == s.subrange(e0 + 1, e1 as int));
                return None;
            },
        };
        let e2 = find_byte(text, e1 + 1, hi, DOT);
        proof {
            lemma_fields_step(s, e1 + 1, e2 as int, hi as int, DOT);
        }
        if e2 == hi {
            assert(f.len() == 3);
            return None;
        }
        proof {
            lemma_fields_nonempty(s.subrange(e2 + 1, hi as int), DOT);
        }
        let c = match read_octet(text, e1 + 1, e2) {
            Some(c) => c,
            None => {
                assert(f[2] == s.subrange(e1 + 1, e2 as int));
                return None;
            },
        };
        let e3 = find_byte(text, e2 + 1, hi, DOT);
        proof {
            lemma_fields_step(s, e2 + 1, e3 as int, hi as int, DOT);
        }
        if e3 != hi {
            proof {
                lemma_fields_nonempty(s.subrange(e3 + 1, hi as int), DOT);
            }
            assert(f.len() >= 5);
            return None;
        }
        assert(f.len() == 4);
        assert(f[0] == s.subrange(lo as int, e0 as int));
        assert(f[1] == s.subrange(e0 + 1, e1 as int));
        assert(f[2] == s.subrange(e1 + 1, e2 as int));
        assert(f[3] == s.subrange(e2 + 1, hi as int));
        match read_octet(text, e2 + 1, hi) {
            Some(d) => Some(Ipv4Addr::from_octets(a, b, c, d)),
            None => None,
        }
    }
}

} // verus!
