//! The ways in which an enumeration can fail.

use vstd::prelude::*;

verus! {

/// Why no sequence of URLs was produced.
#[derive(Clone, Copy, Debug, PartialEq, Eq, Structural)]
pub enum EnumerationError {
    /// The first number of the range is greater than the last.
    InvalidRange,
    /// The path holds no run of two digits or more.
    NoEnumerablePosition,
    /// The URL that was given is not an absolute URL with a host.
    MalformedInputUrl,
    /// A URL that was put together is refused by the URL parser.
    InternalReassemblyFailure,
}

impl EnumerationError {
    /// The text that tells a user of this failure.
    pub open spec fn message_text(self) -> Seq<char> {
        match self {
            EnumerationError::InvalidRange => "Start must be less than end"@,
            EnumerationError::NoEnumerablePosition => "No incremental number found in URL path"@,
            EnumerationError::MalformedInputUrl => "Failed to parse URL"@,
            EnumerationError::InternalReassemblyFailure => "Failed to parse new URL"@,
        }
    }

    /// The text that tells a user of this failure; each failure has a text
    /// of its own.
    pub fn message(&self) -> (r: String)
        ensures
            r@ == self.message_text(),
    {
        match self {
            EnumerationError::InvalidRange => "Start must be less than end".to_string(),
            EnumerationError::NoEnumerablePosition => {
                "No incremental number found in URL path".to_string()
            },
            EnumerationError::MalformedInputUrl => "Failed to parse URL".to_string(),
            EnumerationError::InternalReassemblyFailure => "Failed to parse new URL".to_string(),
        }
    }
}

} // verus!
