//! Store-layer errors: what an adapter's append reports ([`AppendError`]),
//! what the repository facade reports ([`StoreError`]), and the upcasting
//! load path's wrapper ([`LoadWithError`]).
use vstd::prelude::*;
use crate::envelope::EnvelopeError;
use crate::version::Version;

verus! {

/// Errors from the event store layer, generic over the adapter (`A`),
/// encode (`EncErr`) and decode (`DecErr`) error types.
#[derive(Debug)]
pub enum StoreError<A, EncErr, DecErr> {
    /// Optimistic concurrency conflict.
    Conflict { stream_id: Vec<u8>, expected: Option<Version>, actual: Option<Version> },
    /// Stream not found.
    StreamNotFound { stream_id: Vec<u8> },
    /// Database adapter failure.
    Adapter(A),
    /// Serialization failure on the write path.
    Encode(EncErr),
    /// Deserialization failure on the read path.
    Decode(DecErr),
    /// Replay rejected an event (e.g. a version mismatch).
    Kernel(Vec<u8>),
    /// A version could not advance past `u64::MAX`.
    VersionOverflow,
    /// Envelope construction rejected user-supplied bytes.
    Envelope(EnvelopeError),
}

impl<A, EncErr, DecErr> StoreError<A, EncErr, DecErr> {
    /// `true` exactly for [`StoreError::Conflict`]: the one error a consumer
    /// can retry by reloading and re-deciding.
    pub fn is_conflict(&self) -> (r: bool)
        ensures
            r == (self is Conflict),
    {
        match self {
            StoreError::Conflict { .. } => true,
            _ => false,
        }
    }
}

/// Errors from the upcasting load path: every store error, plus the user's
/// upcast error.
#[derive(Debug)]
pub enum LoadWithError<A, EncErr, DecErr, UpErr> {
    /// A non-upcast error.
    Store(StoreError<A, EncErr, DecErr>),
    /// The upcast function failed.
    Upcast(UpErr),
}

/// Structured error from an adapter's append: a concurrency conflict (a
/// normal condition) or an adapter failure.
#[derive(Debug)]
pub enum AppendError<E> {
    /// The expected version did not match the stream's head.
    Conflict { stream_id: Vec<u8>, expected: Option<Version>, actual: Option<Version> },
    /// Adapter-level failure.
    Store(E),
}

impl<E> AppendError<E> {
    /// Map an append error into the facade's error: conflicts carry over
    /// field for field, adapter failures become `Adapter`.
    pub fn into_store_error<EncErr, DecErr>(self) -> (r: StoreError<E, EncErr, DecErr>)
        ensures
            match self {
                AppendError::Conflict { stream_id, expected, actual } => r matches StoreError::Conflict {
                    stream_id: s,
                    expected: x,
                    actual: a,
                } && s == stream_id && x == expected && a == actual,
                AppendError::Store(e) => r == StoreError::<E, EncErr, DecErr>::Adapter(e),
            },
    {
        match self {
            AppendError::Conflict { stream_id, expected, actual } => StoreError::Conflict {
                stream_id,
                expected,
                actual,
            },
            AppendError::Store(e) => StoreError::Adapter(e),
        }
    }
}

} // verus!
