//! The typed failures of the parsers.

use vstd::prelude::*;

verus! {

/// Why a piece of text was rejected.
#[derive(Clone, Copy, Debug, PartialEq, Eq, Structural)]
pub enum ParseError {
    /// A priority number above 191.
    OutOfRange,
    /// The priority token is not `<`, decimal digits, `>`, or its number is above 191.
    MalformedPriority,
    /// The three characters of a month are not one of the twelve English abbreviations.
    InvalidMonth,
    /// A timestamp that does not follow its grammar, or names no instant.
    InvalidTimestamp,
    /// An unterminated element or value, or a forbidden character in an identifier or name.
    MalformedStructuredData,
    /// A mandatory token or its separating space is not there.
    MissingField,
}

/// The positions of a header that a parse can fail at.
#[derive(Clone, Copy, Debug, PartialEq, Eq, Structural)]
pub enum HeaderField {
    Priority,
    Version,
    Timestamp,
    Hostname,
    AppName,
    ProcId,
    MsgId,
    StructuredData,
}

/// The first field of a line that could not be read: which one, the number of
/// characters that precede it in the input, and why it was rejected.
#[derive(Clone, Copy, Debug, PartialEq, Eq, Structural)]
pub struct HeaderParseFailed {
    pub field: HeaderField,
    pub position: usize,
    pub cause: ParseError,
}

} // verus!
