//! Bounded batch size for stream reads and subscription refills.
//!
//! Read paths never materialize more than `batch_size` event rows at once.
//! [`BatchSize`] carries the `1..=MAX_BATCH` invariant by construction, so
//! an out-of-range value is unrepresentable past [`BatchSize::new`].
use vstd::prelude::*;

verus! {

/// Largest permitted batch size — the ceiling on resident rows.
pub const MAX_BATCH: usize = 4096;

/// Default batch size when none is configured.
pub const DEFAULT_BATCH: usize = 256;

/// A validated read / refill batch size in `1..=MAX_BATCH`.
#[derive(Debug, Clone, Copy, PartialEq, Eq, Structural)]
pub struct BatchSize(usize);

/// Error returned when a configured batch size is out of range.
#[derive(Debug, Clone, Copy, PartialEq, Eq, Structural)]
pub struct BatchSizeError {
    /// The rejected value.
    pub requested: usize,
    /// The maximum ([`MAX_BATCH`]).
    pub max: usize,
}

impl BatchSize {
    /// The value held.
    pub closed spec fn spec_get(self) -> usize {
        self.0
    }

    /// The invariant: `1 <= value <= MAX_BATCH`.
    pub open spec fn wf(self) -> bool {
        1 <= self.spec_get() <= MAX_BATCH
    }

    /// The default batch size ([`DEFAULT_BATCH`]).
    pub fn default_size() -> (r: BatchSize)
        ensures
            r.spec_get() == DEFAULT_BATCH,
            r.wf(),
    {
        BatchSize(DEFAULT_BATCH)
    }

    /// Construct a `BatchSize`, rejecting `0` and values above [`MAX_BATCH`].
    pub fn new(n: usize) -> (r: Result<BatchSize, BatchSizeError>)
        ensures
            1 <= n <= MAX_BATCH ==> (r matches Ok(b) && b.spec_get() == n && b.wf()),
            !(1 <= n <= MAX_BATCH) ==> r == Err::<BatchSize, BatchSizeError>(
                BatchSizeError { requested: n, max: MAX_BATCH },
            ),
    {
        if n == 0 || n > MAX_BATCH {
            return Err(BatchSizeError { requested: n, max: MAX_BATCH });
        }
        Ok(BatchSize(n))
    }

    /// The validated value, always in `1..=MAX_BATCH`.
    pub fn get(self) -> (r: usize)
        ensures
            r == self.spec_get(),
    {
        self.0
    }
}

impl Default for BatchSize {
    fn default() -> (r: BatchSize)
        ensures
            r.spec_get() == DEFAULT_BATCH,
    {
        BatchSize::default_size()
    }
}

} // verus!
