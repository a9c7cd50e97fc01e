//! The `ip` collation: a comparison of two texts as addresses that always
//! has an answer.

use crate::addr::{address_value, lemma_literal_is_utf8, Family, IpAddr, Order};
use crate::value::is_utf8;
use vstd::prelude::*;

verus! {

/// The name under which the collation is registered.
pub const COLLATION_NAME: &'static str = "ip";

/// How the text `a` stands to the text `b` under the collation: as the
/// address of `a` stands to the address of `b` when both texts are address
/// literals of either family, and `Less` when either is none.
pub open spec fn collation(a: Seq<u8>, b: Seq<u8>) -> Order {
    match (address_value(a, Family::Any), address_value(b, Family::Any)) {
        (Some(x), Some(y)) => x.order(y),
        _ => Order::Less,
    }
}

/// Compares two texts as addresses.
pub fn compare(a: &[u8], b: &[u8]) -> (r: Order)
    ensures
        r == collation(a@, b@),
{
    if !is_utf8(a) || !is_utf8(b) {
        proof {
            if address_value(a@, Family::Any) is Some {
                lemma_literal_is_utf8(a@, Family::Any);
            }
            if address_value(b@, Family::Any) is Some {
                lemma_literal_is_utf8(b@, Family::Any);
            }
        }
        return Order::Less;
    }
    match (IpAddr::parse(a, Family::Any), IpAddr::parse(b, Family::Any)) {
        (Some(x), Some(y)) => x.compare(&y),
        _ => Order::Less,
    }
}

/// The comparison callback of the collation: -1, 0 or 1 as `a` is less
/// than, equal to or greater than `b`.
pub fn ip_collate(a: &[u8], b: &[u8]) -> (r: i32)
    ensures
        r == collation(a@, b@).code(),
{
    compare(a, b).code()
}

/// The collation is reflexive on address literals: a text that is one
/// compares equal to itself.
pub proof fn lemma_collation_reflexive(x: Seq<u8>)
    requires
        address_value(x, Family::Any) is Some,
    ensures
        collation(x, x) == Order::Equal,
{
}

/// The collation is antisymmetric on address literals: where one text is
/// less than another, the other is greater than the one.
pub proof fn lemma_collation_antisymmetric(a: Seq<u8>, b: Seq<u8>)
    requires
        address_value(a, Family::Any) is Some,
        address_value(b, Family::Any) is Some,
        collation(a, b) == Order::Less,
    ensures
        collation(b, a) == Order::Greater,
{
}

/// On address literals the collation is transitive.
pub proof fn lemma_collation_transitive(a: Seq<u8>, b: Seq<u8>, c: Seq<u8>)
    requires
        address_value(a, Family::Any) is Some,
        address_value(b, Family::Any) is Some,
        address_value(c, Family::Any) is Some,
        collation(a, b) == Order::Less,
        collation(b, c) == Order::Less,
    ensures
        collation(a, c) == Order::Less,
{
}

/// Two address literals compare equal exactly when they stand for the same
/// address, however each is written.
pub proof fn lemma_collation_equal(a: Seq<u8>, b: Seq<u8>)
    requires
        address_value(a, Family::Any) is Some,
        address_value(b, Family::Any) is Some,
    ensures
        collation(a, b) == Order::Equal <==> address_value(a, Family::Any) == address_value(
            b,
            Family::Any,
        ),
{
}

/// The collation answers `Less` whenever either text is no address literal.
pub proof fn lemma_collation_fallback(a: Seq<u8>, b: Seq<u8>)
    requires
        address_value(a, Family::Any) is None || address_value(b, Family::Any) is None,
    ensures
        collation(a, b) == Order::Less,
{
}

} // verus!
