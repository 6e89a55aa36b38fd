//! The failure taxonomy of the parsing core.

use vstd::prelude::*;

verus! {

/// One parse step's failure.
///
/// All data-row failures are line-scoped: the offending line is skipped and
/// parsing continues.  A header failure is file-scoped: the file contributes
/// an empty table.
#[derive(Debug)]
pub enum ParseError {
    /// A field expected to carry content is zero-length at its expected
    /// offset (also: no field at all remains on the line).
    EmptyField,
    /// No registered timestamp format matched; carries the trimmed candidate
    /// text for diagnostics.
    TimestampUnparseable(String),
    /// A numeric field failed to parse after normalization.
    ValueUnparseable,
    /// The first line of the file could not be split into column names.
    HeaderUnparseable,
}

impl ParseError {
    /// A short, fixed description of the failure, for diagnostics.
    pub fn describe(&self) -> (r: &'static str)
        ensures
            self is EmptyField ==> r@ == "empty value"@,
            self is TimestampUnparseable ==> r@ == "could not parse: timestamp"@,
            self is ValueUnparseable ==> r@ == "could not parse: value"@,
            self is HeaderUnparseable ==> r@ == "could not parse: header"@,
    {
        match self {
            ParseError::EmptyField => "empty value",
            ParseError::TimestampUnparseable(_) => "could not parse: timestamp",
            ParseError::ValueUnparseable => "could not parse: value",
            ParseError::HeaderUnparseable => "could not parse: header",
        }
    }
}

} // verus!
