//! Failure taxonomy of the registry core.
//!
//! Every operation reports failure through one of these types; the core
//! performs no internal retries and formats no messages.

use vstd::prelude::*;

verus! {

/// Failures of the persistence layer.
#[derive(Clone, Copy, Debug, PartialEq, Eq, Structural)]
pub enum DBError {
    /// The target of a query or deletion is absent.
    NotFound,
    /// A unique key is already taken, or a challenge key already holds a
    /// different value.
    Conflict,
    /// A child entity references a missing parent, or a forge type that
    /// was never seeded.
    ReferenceError,
    /// The backing store is unavailable or corrupted.  The in-memory
    /// store never reports this; adapters over an external engine may.
    StoreFault,
}

/// Failures of the federation exporter.
#[derive(Clone, Copy, Debug, PartialEq, Eq, Structural)]
pub enum FedError {
    /// Removing a forge entry was rejected while user or repository
    /// entries still exist under it.
    Conflict,
    /// A filesystem or archiving step failed.  The in-memory export tree
    /// never reports this; adapters over a real filesystem may.
    IOFault,
}

/// Failures surfaced to callers of the challenge-submission flow.
#[derive(Clone, Copy, Debug, PartialEq, Eq, Structural)]
pub enum ServiceError {
    /// The submitted hostname is not a URL with a host.
    NotAUrl,
    /// The persistence layer failed.
    Database(DBError),
}

} // verus!
