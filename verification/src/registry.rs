//! The table of callable operations that a host registers, and the
//! dispatch from an operation to what it computes.

use crate::addr::{Family, Predicate};
use crate::error::IpError;
use crate::scalar::{
    classify, classify_outcome, debug_text, ip_debug, ip_version, probe, probe_outcome,
    version_text, Build,
};
use crate::value::Value;
use vstd::prelude::*;

verus! {

/// A callable operation. Each one is deterministic: its result depends on
/// its arguments and on what the build supplies, and on nothing else.
#[derive(Clone, Copy, Debug, PartialEq, Eq, Structural)]
pub enum Operation {
    Version,
    Debug,
    Valid,
    IsUnspecified,
    IsLoopback,
    IsMulticast,
    IsIpv4,
    IsIpv6,
    Ipv4Valid,
    Ipv6Valid,
}

/// How an operation is marked when it is registered.
#[derive(Clone, Copy, Debug, PartialEq, Eq, Structural)]
pub struct Flags {
    /// The operation takes its text arguments as UTF-8.
    pub utf8: bool,
    /// The operation gives the same result for the same arguments.
    pub deterministic: bool,
}

/// What a call hands back to the host: a text or a truth value.
#[derive(Debug, PartialEq, Eq)]
pub enum Output {
    Text(String),
    Bool(bool),
}

/// The operations in the order in which they are registered.
pub open spec fn operations() -> Seq<Operation> {
    seq![
        Operation::Version,
        Operation::Debug,
        Operation::Valid,
        Operation::IsUnspecified,
        Operation::IsLoopback,
        Operation::IsMulticast,
        Operation::IsIpv4,
        Operation::IsIpv6,
        Operation::Ipv4Valid,
        Operation::Ipv6Valid,
    ]
}

/// A truth value, or the failure of the call, as the host receives it.
pub open spec fn answer(r: Result<bool, IpError>) -> Result<Output, IpError> {
    match r {
        Ok(b) => Ok(Output::Bool(b)),
        Err(e) => Err(e),
    }
}

impl Operation {
    /// The name under which the operation is registered.
    pub open spec fn spec_name(self) -> Seq<char> {
        match self {
            Operation::Version => "version"@,
            Operation::Debug => "debug_info"@,
            Operation::Valid => "ip_valid"@,
            Operation::IsUnspecified => "ip_is_unspecified"@,
            Operation::IsLoopback => "ip_is_loopback"@,
            Operation::IsMulticast => "ip_is_multicast"@,
            Operation::IsIpv4 => "ip_is_ipv4"@,
            Operation::IsIpv6 => "ip_is_ipv6"@,
            Operation::Ipv4Valid => "ipv4_valid"@,
            Operation::Ipv6Valid => "ipv6_valid"@,
        }
    }

    /// The number of arguments that the operation takes.
    pub open spec fn spec_arity(self) -> i32 {
        match self {
            Operation::Version => 0i32,
            Operation::Debug => 0i32,
            _ => 1i32,
        }
    }

    /// How the operation is marked: every one takes UTF-8 text and is
    /// deterministic.
    pub open spec fn spec_flags(self) -> Flags {
        Flags { utf8: true, deterministic: true }
    }

    /// How the operation is marked when it is registered.
    #[verifier::when_used_as_spec(spec_flags)]
    pub fn flags(self) -> (r: Flags)
        ensures
            r == self.spec_flags(),
    {
        Flags { utf8: true, deterministic: true }
    }

    /// The name under which the operation is registered.
    pub fn name(self) -> (r: &'static str)
        ensures
            r@ == self.spec_name(),
    {
        match self {
            Operation::Version => "version",
            Operation::Debug => "debug_info",
            Operation::Valid => "ip_valid",
            Operation::IsUnspecified => "ip_is_unspecified",
            Operation::IsLoopback => "ip_is_loopback",
            Operation::IsMulticast => "ip_is_multicast",
            Operation::IsIpv4 => "ip_is_ipv4",
            Operation::IsIpv6 => "ip_is_ipv6",
            Operation::Ipv4Valid => "ipv4_valid",
            Operation::Ipv6Valid => "ipv6_valid",
        }
    }

    /// The number of arguments that the operation takes.
    #[verifier::when_used_as_spec(spec_arity)]
    pub fn arity(self) -> (r: i32)
        ensures
            r == self.spec_arity(),
    {
        match self {
            Operation::Version => 0,
            Operation::Debug => 0,
            _ => 1,
        }
    }
}

/// Builds the registration table: every operation once, in registration
/// order. A host registers each under its name, arity and flags, and hands
/// calls to `call`.
pub fn sqlite3_ip_init() -> (table: Vec<Operation>)
    ensures
        table@ == operations(),
{
    let mut table: Vec<Operation> = Vec::new();
    table.push(Operation::Version);
    table.push(Operation::Debug);
    table.push(Operation::Valid);
    table.push(Operation::IsUnspecified);
    table.push(Operation::IsLoopback);
    table.push(Operation::IsMulticast);
    table.push(Operation::IsIpv4);
    table.push(Operation::IsIpv6);
    table.push(Operation::Ipv4Valid);
    table.push(Operation::Ipv6Valid);
    table
}

/// Performs one call of `operation` on the arguments `values`. `build` is
/// what the build supplies, which only the two reports read.
pub fn call(operation: Operation, values: &[Value], build: &Build) -> (r: Result<Output, IpError>)
    ensures
        match operation {
            Operation::Version => r matches Ok(Output::Text(s)) && s@ == version_text(*build),
            Operation::Debug => r matches Ok(Output::Text(s)) && s@ == debug_text(*build),
            Operation::Valid => r == answer(probe_outcome(values@, Family::Any)),
            Operation::Ipv4Valid => r == answer(probe_outcome(values@, Family::V4)),
            Operation::Ipv6Valid => r == answer(probe_outcome(values@, Family::V6)),
            Operation::IsUnspecified => r == answer(
                classify_outcome(values@, Predicate::Unspecified),
            ),
            Operation::IsLoopback => r == answer(classify_outcome(values@, Predicate::Loopback)),
            Operation::IsMulticast => r == answer(classify_outcome(values@, Predicate::Multicast)),
            Operation::IsIpv4 => r == answer(classify_outcome(values@, Predicate::Ipv4)),
            Operation::IsIpv6 => r == answer(classify_outcome(values@, Predicate::Ipv6)),
        },
{
    let truth = match operation {
        Operation::Version => {
            return Ok(Output::Text(ip_version(build)));
        },
        Operation::Debug => {
            return Ok(Output::Text(ip_debug(build)));
        },
        Operation::Valid => probe(values, Family::Any),
        Operation::Ipv4Valid => probe(values, Family::V4),
        Operation::Ipv6Valid => probe(values, Family::V6),
        Operation::IsUnspecified => classify(values, Predicate::Unspecified),
        Operation::IsLoopback => classify(values, Predicate::Loopback),
        Operation::IsMulticast => classify(values, Predicate::Multicast),
        Operation::IsIpv4 => classify(values, Predicate::Ipv4),
        Operation::IsIpv6 => classify(values, Predicate::Ipv6),
    };
    match truth {
        Ok(b) => Ok(Output::Bool(b)),
        Err(e) => Err(e),
    }
}

} // verus!
