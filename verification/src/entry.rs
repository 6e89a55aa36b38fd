//! The value object of one measurement: a timestamp and a numeric value.

use vstd::prelude::*;

verus! {

/// The mathematical content of an [`Entry`]: the timestamp in milliseconds
/// since the Unix epoch and the normalized text of the numeric value.
#[verifier::ext_equal]
pub struct EntryModel {
    pub timestamp: u64,
    pub value: Seq<char>,
}

/// One measurement of one series.
///
/// `timestamp` is in milliseconds since the Unix epoch.  `value` holds the
/// normalized text of the numeric value: quoting stripped, a locale-style
/// decimal comma truncated away, whitespace trimmed.  An `Entry` built by the
/// parser always carries a value that satisfies
/// [`crate::number::is_float_literal`], so that reading it as a
/// floating-point literal downstream cannot fail.
pub struct Entry {
    pub value: String,
    pub timestamp: u64,
}

impl View for Entry {
    type V = EntryModel;

    open spec fn view(&self) -> EntryModel {
        EntryModel { timestamp: self.timestamp, value: self.value@ }
    }
}

impl Clone for Entry {
    fn clone(&self) -> (r: Self)
        ensures
            r@ == self@,
    {
        Entry { value: self.value.clone(), timestamp: self.timestamp }
    }
}

impl Entry {
    /// The zero entry: timestamp 0 and the value text `0`.
    pub fn new() -> (r: Entry)
        ensures
            r.timestamp == 0,
            r@.value == "0"@,
    {
        Entry { value: String::from_str("0"), timestamp: 0 }
    }
}

/// The models of a sequence of entries, element for element.
pub open spec fn entry_models(s: Seq<Entry>) -> Seq<EntryModel> {
    s.map_values(|e: Entry| e@)
}

} // verus!
