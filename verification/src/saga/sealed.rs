//! The seal on [`ConflictPredicate`](super::ConflictPredicate).
use vstd::prelude::*;
use crate::error::StoreError;

verus! {

/// Implemented only inside this crate.
pub trait Sealed {}

impl<A, EncErr, DecErr> Sealed for StoreError<A, EncErr, DecErr> {}

} // verus!
