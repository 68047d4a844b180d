//! The error taxonomy of the ranking core.
//!
//! Every failure is per-request: validation and reference-resolution errors
//! are detected before any write, so no partial state is ever observable.

use vstd::prelude::*;

verus! {

/// A caller-visible failure of a ranking operation.
#[derive(Clone, Copy, Debug, PartialEq, Eq, Structural)]
pub enum ListError {
    /// A uniqueness violation: the proposed name is already taken,
    /// case-insensitively, by an active entry.
    Conflict,
    /// A numeric bound violation: a position or requirement outside its
    /// permitted range.
    OutOfRange,
    /// A dangling reference: a named actor could not be resolved.
    NotFound,
    /// A malformed or unrecognized video URL.
    InvalidFormat,
    /// A storage-layer abort under concurrent-write contention. Rollback is
    /// complete, so a caller may retry the whole operation transparently.
    TransactionFailure,
}

impl ListError {
    /// Whether a caller may safely retry the failed operation as a whole.
    /// Only a storage-layer abort is retryable: it is guaranteed to leave no
    /// partial effect behind, while every other error is deterministic and
    /// would simply recur.
    pub fn retryable(&self) -> (r: bool)
        ensures
            r == (*self is TransactionFailure),
    {
        match self {
            ListError::TransactionFailure => true,
            _ => false,
        }
    }
}

} // verus!
