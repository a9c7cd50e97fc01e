//! The ways a call can fail, and the message each failure carries.

use crate::addr::Family;
use vstd::prelude::*;
use vstd::string::*;

verus! {

/// Why a call failed.
#[derive(Clone, Copy, Debug, PartialEq, Eq, Structural)]
pub enum IpError {
    /// A required positional argument is absent.
    MissingArgument,
    /// The value's reported storage type is not text.
    TypeMismatch,
    /// Malformed input: the value's bytes are not well-formed UTF-8.
    NotUtf8,
    /// Malformed input: the text is no address literal of the family that
    /// was asked for.
    Syntax(Family),
}

impl Family {
    /// What the address parser says of a text that is no literal of this
    /// family.
    pub open spec fn spec_syntax_text(self) -> Seq<char> {
        match self {
            Family::Any => "invalid IP address syntax"@,
            Family::V4 => "invalid IPv4 address syntax"@,
            Family::V6 => "invalid IPv6 address syntax"@,
        }
    }

    /// What the address parser says of a text that is no literal of this
    /// family.
    pub fn syntax_text(self) -> (r: &'static str)
        ensures
            r@ == self.spec_syntax_text(),
    {
        match self {
            Family::Any => "invalid IP address syntax",
            Family::V4 => "invalid IPv4 address syntax",
            Family::V6 => "invalid IPv6 address syntax",
        }
    }
}

impl IpError {
    /// The message that a failed call surfaces with.
    pub open spec fn spec_message(self) -> Seq<char> {
        match self {
            IpError::MissingArgument => "Expected 1st argument as IP address"@,
            IpError::TypeMismatch => "TODO"@,
            IpError::NotUtf8 => "Expected UTF8 in IpAddress"@,
            IpError::Syntax(family) => "Error parsing IP address: "@ + family.spec_syntax_text(),
        }
    }

    /// The message that a failed call surfaces with.
    pub fn message(&self) -> (r: String)
        ensures
            r@ == self.spec_message(),
    {
        match self {
            IpError::MissingArgument => String::from_str("Expected 1st argument as IP address"),
            IpError::TypeMismatch => String::from_str("TODO"),
            IpError::NotUtf8 => String::from_str("Expected UTF8 in IpAddress"),
            IpError::Syntax(family) => String::from_str("Error parsing IP address: ").concat(
                family.syntax_text(),
            ),
        }
    }
}

} // verus!
