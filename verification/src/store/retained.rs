//! Retained-log status and gap metadata.

use vstd::prelude::*;

verus! {

/// Gap metadata returned when a retained-log query can no longer be answered
/// exactly.
#[derive(Clone, Copy, Debug, PartialEq, Eq, Structural, Hash)]
pub struct RetainedGap {
    /// The caller's requested cursor position.
    pub requested_since: u64,
    /// The oldest cursor position that is still queryable without resync.
    pub retained_floor_sequence: u64,
    /// The current sequence tail of the store.
    pub last_sequence: u64,
}

impl RetainedGap {
    /// Creates a retained-gap value from explicit sequence metadata.
    pub fn new(requested_since: u64, retained_floor_sequence: u64, last_sequence: u64) -> (gap: Self)
        ensures
            gap.requested_since == requested_since,
            gap.retained_floor_sequence == retained_floor_sequence,
            gap.last_sequence == last_sequence,
    {
        RetainedGap { requested_since, retained_floor_sequence, last_sequence }
    }
}

/// Status for a retained-log query at one cursor position.
#[derive(Clone, Copy, Debug, PartialEq, Eq, Structural, Hash)]
pub enum RetainedStatus {
    /// The retained log can answer the query and has more changes.
    Pending,
    /// The retained log can answer the query and has nothing newer.
    UpToDate,
    /// The retained log has compacted away part of the requested range.
    Gap(RetainedGap),
}

/// Result type for retained-log queries that may require resync.
pub type RetainedResult<T> = Result<T, RetainedGap>;

} // verus!
