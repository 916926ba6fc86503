//! Helpers for snapshot tests of log output.

use vstd::prelude::*;

verus! {

/// The pattern that matches an RFC 3339 timestamp in a log line.
pub open spec fn timestamp_pattern() -> Seq<char> {
    r"\d{4}-\d{2}-\d{2}T\d{2}:\d{2}:\d*\.\d*Z"@
}

/// What a timestamp in a log line is replaced with.
pub open spec fn timestamp_placeholder() -> Seq<char> {
    "[TIMESTAMP]"@
}

/// The filters that make log snapshots independent of the time they were taken at:
/// one pair of a pattern and its replacement.
pub fn timestamp_filter() -> (filters: Vec<(&'static str, &'static str)>)
    ensures
        filters@.len() == 1,
        filters@[0].0@ == timestamp_pattern(),
        filters@[0].1@ == timestamp_placeholder(),
{
    let mut filters: Vec<(&'static str, &'static str)> = Vec::new();
    filters.push((r"\d{4}-\d{2}-\d{2}T\d{2}:\d{2}:\d*\.\d*Z", "[TIMESTAMP]"));
    filters
}

} // verus!
