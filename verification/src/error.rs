//! Error types

use vstd::prelude::*;
use vstd::string::StringExecFns;
use crate::binary::read::ReadEof;

verus! {

/// Errors that originate when parsing binary data
#[derive(Clone, Eq, PartialEq, Debug, Structural)]
pub enum ParseError {
    /// EOF was reached unexpectedly
    BadEof,
    /// A value was outside the expected range
    BadValue,
    /// A version field contained an unsupported version
    BadVersion,
    /// An offset was outside allowed bounds
    BadOffset,
    /// An index was outside the valid range
    BadIndex,
    /// A value overflowed its storage type
    Overflow,
    /// A value exceeded a configured capacity limit
    LimitExceeded,
    /// A required value was absent
    MissingValue,
    /// The data requires a feature this library does not implement
    NotImplemented,
    /// CRC did not match expected value
    CrcMismatch,
}

impl From<ReadEof> for ParseError {
    fn from(_error: ReadEof) -> (r: ParseError) {
        ParseError::BadEof
    }
}

impl vstd::std_specs::convert::FromSpecImpl<ReadEof> for ParseError {
    open spec fn obeys_from_spec() -> bool {
        true
    }

    open spec fn from_spec(_error: ReadEof) -> ParseError {
        ParseError::BadEof
    }
}

impl ParseError {
    /// The message this error displays.
    pub open spec fn spec_message(&self) -> Seq<char> {
        match self {
            ParseError::BadEof => "end of data reached unexpectedly"@,
            ParseError::BadValue => "invalid value"@,
            ParseError::BadVersion => "unexpected data version"@,
            ParseError::BadOffset => "invalid data offset"@,
            ParseError::BadIndex => "invalid data index"@,
            ParseError::Overflow => "a value overflowed its range"@,
            ParseError::LimitExceeded => "a capacity limit was exceeded"@,
            ParseError::MissingValue => "a required value was absent"@,
            ParseError::NotImplemented => "not implemented"@,
            ParseError::CrcMismatch => "CRC mismatch"@,
        }
    }

    /// Renders the error as a human-readable message.
    pub fn to_string(&self) -> (r: String)
        ensures
            r@ == self.spec_message(),
    {
        match self {
            ParseError::BadEof => String::from_str("end of data reached unexpectedly"),
            ParseError::BadValue => String::from_str("invalid value"),
            ParseError::BadVersion => String::from_str("unexpected data version"),
            ParseError::BadOffset => String::from_str("invalid data offset"),
            ParseError::BadIndex => String::from_str("invalid data index"),
            ParseError::Overflow => String::from_str("a value overflowed its range"),
            ParseError::LimitExceeded => String::from_str("a capacity limit was exceeded"),
            ParseError::MissingValue => String::from_str("a required value was absent"),
            ParseError::NotImplemented => String::from_str("not implemented"),
            ParseError::CrcMismatch => String::from_str("CRC mismatch"),
        }
    }
}

} // verus!
