//! The callable operations: version reports, validity probes and
//! classification predicates over the arguments of a call.

use crate::addr::{lemma_families_disjoint, lemma_literal_is_utf8, Family, Predicate};
use crate::error::IpError;
use crate::ipv4::ipv4_value;
use crate::ipv6::ipv6_value;
use crate::value::{parse_outcome, parse_value, Value, ValueType};
use vstd::prelude::*;
use vstd::string::*;

verus! {

/// What the build supplies to the two reports: the version of the package,
/// and the identifier of the source that it was built from.
#[derive(Clone, Copy, Debug, PartialEq, Eq)]
pub struct Build<'a> {
    pub version: &'a str,
    pub source: &'a str,
}

/// The version report: the version of the build, prefixed `v`.
pub open spec fn version_text(build: Build) -> Seq<char> {
    "v"@ + build.version@
}

/// The debug report: a line with the version of the build, prefixed `v`,
/// and an indented line with the identifier of its source.
pub open spec fn debug_text(build: Build) -> Seq<char> {
    "Version: v"@ + build.version@ + "\n    Source: "@ + build.source@ + "\n    "@
}

/// The outcome of a classification predicate: a missing argument fails the
/// call, and so does a first argument that does not parse as an address of
/// either family; else the answer to `predicate` for that address.
pub open spec fn classify_outcome(values: Seq<Value>, predicate: Predicate) -> Result<
    bool,
    IpError,
> {
    if values.len() == 0 {
        Err(IpError::MissingArgument)
    } else {
        match parse_outcome(values[0], Family::Any) {
            Ok(a) => Ok(a.classify(predicate)),
            Err(e) => Err(e),
        }
    }
}

/// The outcome of a validity probe: a missing argument fails the call, and
/// any other failure to parse is downgraded to `false`.
pub open spec fn probe_outcome(values: Seq<Value>, family: Family) -> Result<bool, IpError> {
    if values.len() == 0 {
        Err(IpError::MissingArgument)
    } else {
        Ok(parse_outcome(values[0], family) is Ok)
    }
}

/// Tells whether the first argument parses as an address of the requested
/// family.
pub fn probe(values: &[Value], family: Family) -> (r: Result<bool, IpError>)
    ensures
        r == probe_outcome(values@, family),
{
    if values.len() == 0 {
        return Err(IpError::MissingArgument);
    }
    Ok(parse_value(&values[0], family).is_ok())
}

/// Answers `predicate` for the address that the first argument holds.
pub fn classify(values: &[Value], predicate: Predicate) -> (r: Result<bool, IpError>)
    ensures
        r == classify_outcome(values@, predicate),
{
    if values.len() == 0 {
        return Err(IpError::MissingArgument);
    }
    match parse_value(&values[0], Family::Any) {
        Ok(a) => Ok(a.classify(predicate)),
        Err(e) => Err(e),
    }
}

/// Reports the version of the build, prefixed `v`.
pub fn ip_version(build: &Build) -> (r: String)
    ensures
        r@ == version_text(*build),
{
    String::from_str("v").concat(build.version)
}

/// Reports the version of the build and the identifier of the source it was
/// built from.
pub fn ip_debug(build: &Build) -> (r: String)
    ensures
        r@ == debug_text(*build),
{
    String::from_str("Version: v").concat(build.version).concat("\n    Source: ").concat(
        build.source,
    ).concat("\n    ")
}

/// Validity probe for either family.
pub fn ip_valid(values: &[Value]) -> (r: Result<bool, IpError>)
    ensures
        r == probe_outcome(values@, Family::Any),
{
    probe(values, Family::Any)
}

/// Validity probe for IPv4.
pub fn ipv4_valid(values: &[Value]) -> (r: Result<bool, IpError>)
    ensures
        r == probe_outcome(values@, Family::V4),
{
    probe(values, Family::V4)
}

/// Validity probe for IPv6.
pub fn ipv6_valid(values: &[Value]) -> (r: Result<bool, IpError>)
    ensures
        r == probe_outcome(values@, Family::V6),
{
    probe(values, Family::V6)
}

/// Tells whether the first argument is the all-zero address of its family.
/// Fails when it is no address.
pub fn ip_is_unspecified(values: &[Value]) -> (r: Result<bool, IpError>)
    ensures
        r == classify_outcome(values@, Predicate::Unspecified),
{
    classify(values, Predicate::Unspecified)
}

/// Tells whether the first argument is a loopback address. Fails when it is
/// no address.
pub fn ip_is_loopback(values: &[Value]) -> (r: Result<bool, IpError>)
    ensures
        r == classify_outcome(values@, Predicate::Loopback),
{
    classify(values, Predicate::Loopback)
}

/// Tells whether the first argument is a multicast address. Fails when it
/// is no address.
pub fn ip_is_multicast(values: &[Value]) -> (r: Result<bool, IpError>)
    ensures
        r == classify_outcome(values@, Predicate::Multicast),
{
    classify(values, Predicate::Multicast)
}

/// Tells whether the first argument is an IPv4 address. Fails when it is no
/// address.
pub fn ip_is_ipv4(values: &[Value]) -> (r: Result<bool, IpError>)
    ensures
        r == classify_outcome(values@, Predicate::Ipv4),
{
    classify(values, Predicate::Ipv4)
}

/// Tells whether the first argument is an IPv6 address. Fails when it is no
/// address.
pub fn ip_is_ipv6(values: &[Value]) -> (r: Result<bool, IpError>)
    ensures
        r == classify_outcome(values@, Predicate::Ipv6),
{
    classify(values, Predicate::Ipv6)
}

/// A text value that holds an IPv4 literal passes the IPv4 validity probe,
/// and the classification predicates report it as IPv4 and not as IPv6.
pub proof fn lemma_ipv4_literal_is_ipv4(values: Seq<Value>)
    requires
        values.len() >= 1,
        values[0].value_type == ValueType::Text,
        ipv4_value(values[0].bytes@) is Some,
    ensures
        probe_outcome(values, Family::V4) == Ok::<bool, IpError>(true),
        classify_outcome(values, Predicate::Ipv4) == Ok::<bool, IpError>(true),
        classify_outcome(values, Predicate::Ipv6) == Ok::<bool, IpError>(false),
{
    lemma_literal_is_utf8(values[0].bytes@, Family::V4);
}

/// A text value that holds an IPv6 literal passes the IPv6 validity probe,
/// and the classification predicates report it as IPv6 and not as IPv4.
pub proof fn lemma_ipv6_literal_is_ipv6(values: Seq<Value>)
    requires
        values.len() >= 1,
        values[0].value_type == ValueType::Text,
        ipv6_value(values[0].bytes@) is Some,
    ensures
        probe_outcome(values, Family::V6) == Ok::<bool, IpError>(true),
        classify_outcome(values, Predicate::Ipv6) == Ok::<bool, IpError>(true),
        classify_outcome(values, Predicate::Ipv4) == Ok::<bool, IpError>(false),
{
    lemma_literal_is_utf8(values[0].bytes@, Family::V6);
    lemma_families_disjoint(values[0].bytes@);
}

} // verus!
