//! The error kinds that surface to a caller of the pipeline.

use vstd::prelude::*;

verus! {

/// An orchestrator-level failure. Per-target and per-item failures are
/// contained inside a run and never surface here.
#[derive(Clone, Copy, PartialEq, Eq, Structural, Debug)]
pub enum CollectError {
    /// Credentials are missing or the target list is empty; raised before
    /// the run guard is touched.
    Configuration,
    /// Another collection run holds the guard; retryable later.
    AlreadyRunning,
    /// A store uniqueness invariant would be violated.
    Persistence,
}

impl CollectError {
    /// A human-readable message for the error.
    pub fn message(&self) -> (r: String)
        ensures
            *self == CollectError::Configuration ==> r@ == "collection is not configured"@,
            *self == CollectError::AlreadyRunning ==> r@ == "collection already in progress"@,
            *self == CollectError::Persistence ==> r@ == "store uniqueness violation"@,
    {
        match self {
            CollectError::Configuration => "collection is not configured".to_owned(),
            CollectError::AlreadyRunning => "collection already in progress".to_owned(),
            CollectError::Persistence => "store uniqueness violation".to_owned(),
        }
    }
}

} // verus!
