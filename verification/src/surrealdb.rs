//! The decisions of the limiter backed by a SurrealDB table.
//!
//! The database keeps one record per identifier and updates it in a single
//! upsert: the attempt count restarts at one and the expiry moves sixty
//! seconds ahead when the record's expiry has passed, and otherwise the count
//! grows by one. What the library decides is what the upserted record and
//! the record count mean. The database client is not among the crate's
//! dependencies, so the limiter type that holds a connection and runs the
//! queries is not part of the crate.
use vstd::prelude::*;

use crate::RATE_LIMIT_MAX;

verus! {

/// What came back from taking the upserted record out of the query response.
#[derive(Clone, Copy, Debug, PartialEq, Eq)]
pub enum UpsertOutcome {
    /// The response could not be read.
    Unreadable,
    /// The record after the upsert, with its attempt count.
    Record { tries: i32 },
}

/// Whether a request is allowed given the upsert's outcome: refused when the
/// response is unreadable or the attempt count exceeds `RATE_LIMIT_MAX`.
pub fn admits(outcome: UpsertOutcome) -> (allowed: bool)
    ensures
        allowed == (match outcome {
            UpsertOutcome::Unreadable => false,
            UpsertOutcome::Record { tries } => tries <= RATE_LIMIT_MAX,
        }),
{
    match outcome {
        UpsertOutcome::Unreadable => false,
        UpsertOutcome::Record { tries } => !(tries > RATE_LIMIT_MAX),
    }
}

/// The number of tracked entries given the table's record count, if the
/// count query returned one: the count as a `usize`, or zero.
pub fn tracked_entries(count: Option<i64>) -> (n: usize)
    ensures
        n == (match count {
            Some(c) => c as usize,
            None => 0usize,
        }),
{
    match count {
        Some(c) => c as usize,
        None => 0,
    }
}

} // verus!
