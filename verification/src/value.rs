//! Values as a database engine hands them over: a reported storage type and
//! raw bytes, and the parse step that turns such a value into an address.

use crate::addr::{address_value, Family, IpAddr};
use crate::error::IpError;
use vstd::prelude::*;
use vstd::utf8::valid_utf8;

verus! {

/// The storage type that the engine reports for a value.
#[derive(Clone, Copy, Debug, PartialEq, Eq, Structural)]
pub enum ValueType {
    Text,
    Integer,
    Float,
    Blob,
    Null,
}

/// A value of the engine: its reported storage type and its bytes.
#[derive(Clone, Copy, Debug, PartialEq, Eq)]
pub struct Value<'a> {
    pub value_type: ValueType,
    pub bytes: &'a [u8],
}

/// The outcome of parsing the value `v` as an address of the requested
/// family: a type mismatch unless the value is text, malformed input unless
/// its bytes are well-formed UTF-8 and an address literal of that family,
/// and else the address.
pub open spec fn parse_outcome(v: Value, family: Family) -> Result<IpAddr, IpError> {
    if v.value_type != ValueType::Text {
        Err(IpError::TypeMismatch)
    } else if !valid_utf8(v.bytes@) {
        Err(IpError::NotUtf8)
    } else {
        match address_value(v.bytes@, family) {
            Some(a) => Ok(a),
            None => Err(IpError::Syntax(family)),
        }
    }
}

/// `core::str::from_utf8` accepts exactly the byte strings that are
/// well-formed UTF-8; this reports whether it accepted `bytes`.
#[verifier::external_body]
pub(crate) fn is_utf8(bytes: &[u8]) -> (ok: bool)
    ensures
        ok == valid_utf8(bytes@),
{
    core::str::from_utf8(bytes).is_ok()
}

/// Parses a value as an address of the requested family.
pub fn parse_value(value: &Value, family: Family) -> (r: Result<IpAddr, IpError>)
    ensures
        r == parse_outcome(*value, family),
{
    match value.value_type {
        ValueType::Text => {
            if !is_utf8(value.bytes) {
                return Err(IpError::NotUtf8);
            }
            match IpAddr::parse(value.bytes, family) {
                Some(a) => Ok(a),
                None => Err(IpError::Syntax(family)),
            }
        },
        _ => Err(IpError::TypeMismatch),
    }
}

/// Parses a value as an address of either family.
pub fn value_ipaddr(value: &Value) -> (r: Result<IpAddr, IpError>)
    ensures
        r == parse_outcome(*value, Family::Any),
{
    parse_value(value, Family::Any)
}

/// Parses a value as an IPv4 address.
pub fn value_ipv4addr(value: &Value) -> (r: Result<IpAddr, IpError>)
    ensures
        r == parse_outcome(*value, Family::V4),
{
    parse_value(value, Family::V4)
}

/// Parses a value as an IPv6 address.
pub fn value_ipv6addr(value: &Value) -> (r: Result<IpAddr, IpError>)
    ensures
        r == parse_outcome(*value, Family::V6),
{
    parse_value(value, Family::V6)
}

} // verus!
