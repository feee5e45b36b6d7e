//! Positions: per-stream [`Version`], store-wide [`GlobalSeq`], and the
//! per-event [`SchemaVersion`]. All three are structurally nonzero.
use vstd::prelude::*;
use crate::text::{decimal, decimal_string};

verus! {

/// A position inside one event stream. Always `>= 1`.
#[derive(Debug, Clone, Copy, PartialEq, Eq, Structural, Hash)]
pub struct Version {
    value: u64,
}

impl Version {
    /// The type invariant: a version is never zero.
    pub closed spec fn wf(self) -> bool {
        self.value >= 1
    }

    /// The integer this version stands for.
    pub closed spec fn spec_u64(self) -> u64 {
        self.value
    }

    /// The version whose number is `n` (meaningful for `n >= 1`).
    pub closed spec fn of(n: u64) -> Version {
        Version { value: n }
    }

    /// `Some` exactly when `n` is nonzero.
    pub fn new(n: u64) -> (r: Option<Version>)
        ensures
            n == 0 ==> r is None,
            n != 0 ==> r == Some(Version::of(n)),
            r matches Some(v) ==> v.wf() && v.spec_u64() == n,
    {
        if n == 0 {
            None
        } else {
            Some(Version { value: n })
        }
    }

    /// The first version of a stream (1).
    pub fn initial() -> (r: Version)
        ensures
            r == Version::of(1),
            r.wf(),
            r.spec_u64() == 1,
    {
        Version { value: 1 }
    }

    /// The successor, or `None` at `u64::MAX`.
    pub fn next(self) -> (r: Option<Version>)
        ensures
            self.spec_u64() == u64::MAX ==> r is None,
            self.spec_u64() < u64::MAX ==> r == Some(Version::of((self.spec_u64() + 1) as u64)),
            self.wf() ==> (r matches Some(v) ==> v.wf()),
    {
        if self.value == u64::MAX {
            None
        } else {
            Some(Version { value: self.value + 1 })
        }
    }

    /// The underlying integer, always `>= 1` for a well-formed version.
    pub fn as_u64(self) -> (r: u64)
        ensures
            r == self.spec_u64(),
    {
        self.value
    }

    /// Widen a schema version into a stream version (total: both are nonzero).
    pub fn from_schema(s: SchemaVersion) -> (r: Version)
        ensures
            r == Version::of(s.spec_u32() as u64),
            s.wf() ==> r.wf(),
    {
        Version { value: s.get() as u64 }
    }

    pub proof fn lemma_of_u64(n: u64)
        ensures
            Version::of(n).spec_u64() == n,
            n >= 1 ==> Version::of(n).wf(),
    {
    }
}

/// A store-local, monotonic-but-gappy sequence number. Always `>= 1`.
#[derive(Debug, Clone, Copy, PartialEq, Eq, Structural, Hash)]
pub struct GlobalSeq {
    value: u64,
}

impl GlobalSeq {
    pub closed spec fn wf(self) -> bool {
        self.value >= 1
    }

    pub closed spec fn spec_u64(self) -> u64 {
        self.value
    }

    pub closed spec fn of(n: u64) -> GlobalSeq {
        GlobalSeq { value: n }
    }

    /// `Some` exactly when `n` is nonzero.
    pub fn new(n: u64) -> (r: Option<GlobalSeq>)
        ensures
            n == 0 ==> r is None,
            n != 0 ==> r == Some(GlobalSeq::of(n)),
            r matches Some(g) ==> g.wf() && g.spec_u64() == n,
    {
        if n == 0 {
            None
        } else {
            Some(GlobalSeq { value: n })
        }
    }

    /// The first sequence number (1).
    pub fn initial() -> (r: GlobalSeq)
        ensures
            r == GlobalSeq::of(1),
            r.wf(),
            r.spec_u64() == 1,
    {
        GlobalSeq { value: 1 }
    }

    /// The next sequence number, or `None` at `u64::MAX`.
    pub fn next(self) -> (r: Option<GlobalSeq>)
        ensures
            self.spec_u64() == u64::MAX ==> r is None,
            self.spec_u64() < u64::MAX ==> r == Some(GlobalSeq::of((self.spec_u64() + 1) as u64)),
    {
        if self.value == u64::MAX {
            None
        } else {
            Some(GlobalSeq { value: self.value + 1 })
        }
    }

    /// The underlying integer.
    pub fn as_u64(self) -> (r: u64)
        ensures
            r == self.spec_u64(),
    {
        self.value
    }

    pub proof fn lemma_of_u64(n: u64)
        ensures
            GlobalSeq::of(n).spec_u64() == n,
    {
    }

    /// The sequence number in base ten: its `Display` text.
    pub fn display(&self) -> (r: String)
        ensures
            r@ == decimal(self.spec_u64() as nat),
    {
        decimal_string(self.value)
    }
}

/// The schema version stamped on an event. Always `>= 1`.
#[derive(Debug, Clone, Copy, PartialEq, Eq, Structural, Hash)]
pub struct SchemaVersion {
    value: u32,
}

/// A rejected value-newtype input.
#[derive(Debug, Clone, Copy, PartialEq, Eq, Structural)]
pub enum ValueError {
    /// Event-type bytes are not valid UTF-8.
    InvalidUtf8,
    /// Event type longer than the cap.
    EventTypeTooLong { actual: usize, max: usize },
    /// Payload longer than the cap.
    PayloadTooLong { actual: usize, max: usize },
    /// Metadata longer than the cap.
    MetadataTooLong { actual: usize, max: usize },
    /// `Some(metadata)` with no bytes in it.
    EmptyMetadata,
    /// A schema version of zero.
    ZeroSchemaVersion,
}

impl SchemaVersion {
    pub closed spec fn wf(self) -> bool {
        self.value >= 1
    }

    pub closed spec fn spec_u32(self) -> u32 {
        self.value
    }

    pub closed spec fn of(n: u32) -> SchemaVersion {
        SchemaVersion { value: n }
    }

    /// The first schema version (1).
    pub fn initial() -> (r: SchemaVersion)
        ensures
            r == SchemaVersion::of(1),
            r.wf(),
            r.spec_u32() == 1,
    {
        SchemaVersion { value: 1 }
    }

    /// Rejects zero.
    pub fn from_u32(n: u32) -> (r: Result<SchemaVersion, ValueError>)
        ensures
            n == 0 ==> r == Err::<SchemaVersion, ValueError>(ValueError::ZeroSchemaVersion),
            n != 0 ==> r == Ok::<SchemaVersion, ValueError>(SchemaVersion::of(n)),
            r matches Ok(s) ==> s.wf() && s.spec_u32() == n,
    {
        if n == 0 {
            Err(ValueError::ZeroSchemaVersion)
        } else {
            Ok(SchemaVersion { value: n })
        }
    }

    /// The raw value, always `>= 1` for a well-formed schema version.
    pub fn get(self) -> (r: u32)
        ensures
            r == self.spec_u32(),
    {
        self.value
    }
}

/// `Version::of` and `spec_u64` are inverse.
pub broadcast proof fn lemma_version_of(n: u64)
    ensures
        #[trigger] Version::of(n).spec_u64() == n,
{
}

/// Versions are equal exactly when their numbers are.
pub broadcast proof fn lemma_version_eq(a: Version, b: Version)
    ensures
        #![trigger a.spec_u64(), b.spec_u64()]
        (a.spec_u64() == b.spec_u64()) == (a == b),
{
}

/// A version is well formed exactly when its number is nonzero.
pub broadcast proof fn lemma_version_wf(a: Version)
    ensures
        #[trigger] a.wf() == (a.spec_u64() >= 1),
{
}

pub broadcast proof fn lemma_global_seq_of(n: u64)
    ensures
        #[trigger] GlobalSeq::of(n).spec_u64() == n,
{
}

pub broadcast proof fn lemma_global_seq_wf(a: GlobalSeq)
    ensures
        #[trigger] a.wf() == (a.spec_u64() >= 1),
{
}

pub broadcast proof fn lemma_schema_of(n: u32)
    ensures
        #[trigger] SchemaVersion::of(n).spec_u32() == n,
{
}

pub broadcast proof fn lemma_schema_eq(a: SchemaVersion, b: SchemaVersion)
    ensures
        #![trigger a.spec_u32(), b.spec_u32()]
        (a.spec_u32() == b.spec_u32()) == (a == b),
{
}

pub broadcast proof fn lemma_schema_wf(a: SchemaVersion)
    ensures
        #[trigger] a.wf() == (a.spec_u32() >= 1),
{
}

pub broadcast group group_positions {
    lemma_version_of,
    lemma_version_eq,
    lemma_version_wf,
    lemma_global_seq_of,
    lemma_global_seq_wf,
    lemma_schema_of,
    lemma_schema_eq,
    lemma_schema_wf,
}

} // verus!
