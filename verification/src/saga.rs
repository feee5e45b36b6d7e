//! The saga-specific error seam of the store: a two-domain error plus a
//! defensive overflow guard, and the sealed conflict predicate that lets
//! [`SagaError::is_conflict`] delegate to the store error.
use vstd::prelude::*;
use crate::error::StoreError;

mod sealed;

pub use sealed::Sealed;

verus! {

/// Predicate over a repository error: is this an optimistic-concurrency
/// conflict (and therefore retryable by reloading and re-reacting)?
///
/// Sealed: implemented inside this crate for [`StoreError`] only.
pub trait ConflictPredicate: Sealed {
    /// What `is_conflict` answers.
    spec fn spec_is_conflict(&self) -> bool;

    /// `true` iff this error is an optimistic-concurrency conflict.
    fn is_conflict(&self) -> (r: bool)
        ensures
            r == self.spec_is_conflict(),
    ;
}

impl<A, EncErr, DecErr> ConflictPredicate for StoreError<A, EncErr, DecErr> {
    open spec fn spec_is_conflict(&self) -> bool {
        self is Conflict
    }

    fn is_conflict(&self) -> (r: bool) {
        StoreError::is_conflict(self)
    }
}

/// A store error is a conflict exactly when it is the `Conflict` variant:
/// encode, decode, adapter, kernel, envelope, missing-stream and overflow
/// failures are never retryable conflicts.
pub proof fn lemma_only_conflicts_are_conflicts<A, EncErr, DecErr>(e: StoreError<A, EncErr, DecErr>)
    ensures
        e.spec_is_conflict() <==> e is Conflict,
{
}

/// Error from a saga react-and-persist: two failure domains plus a
/// defensive overflow guard.
#[derive(Debug)]
pub enum SagaError<SagaErr, StoreErr> {
    /// `react` rejected the upstream event. Nothing persisted.
    React(SagaErr),
    /// `load` or `save` failed (adapter, codec, conflict, version overflow).
    Store(StoreErr),
    /// Version arithmetic overflowed while pinning intents to event versions.
    VersionOverflow,
}

impl<SagaErr, StoreErr: ConflictPredicate> SagaError<SagaErr, StoreErr> {
    /// `true` iff the underlying store error is an optimistic-concurrency
    /// conflict. `React` and `VersionOverflow` are never conflicts.
    pub fn is_conflict(&self) -> (r: bool)
        ensures
            r == (match self {
                SagaError::Store(e) => e.spec_is_conflict(),
                _ => false,
            }),
    {
        match self {
            SagaError::Store(e) => e.is_conflict(),
            _ => false,
        }
    }
}

/// A saga error is a conflict exactly when it wraps a store `Conflict`: a
/// saga whose react step failed, whose event failed to encode, or whose
/// versions overflowed is not retried as a conflict.
pub proof fn lemma_saga_conflict_is_a_store_conflict<SagaErr, A, EncErr, DecErr>(
    err: SagaError<SagaErr, StoreError<A, EncErr, DecErr>>,
    r: bool,
)
    requires
        r == (match err {
            SagaError::Store(e) => e.spec_is_conflict(),
            _ => false,
        }),
    ensures
        r <==> (err matches SagaError::Store(e) && e is Conflict),
{
}

} // verus!
