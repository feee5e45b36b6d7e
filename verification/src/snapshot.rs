//! Snapshot payloads: the serialized aggregate state with the version it
//! was taken at and a schema version for invalidation, on the write path
//! ([`PendingSnapshot`]) and the read path ([`PersistedSnapshot`]).
use vstd::prelude::*;
use crate::version::{SchemaVersion, Version};

verus! {

/// A snapshot ready for persistence (write path).
#[derive(Debug, Clone)]
pub struct PendingSnapshot {
    version: Version,
    schema_version: SchemaVersion,
    payload: Vec<u8>,
}

impl PendingSnapshot {
    pub closed spec fn spec_version(&self) -> Version {
        self.version
    }

    pub closed spec fn spec_schema_version(&self) -> SchemaVersion {
        self.schema_version
    }

    pub closed spec fn spec_payload(&self) -> Seq<u8> {
        self.payload@
    }

    /// A new pending snapshot.
    pub fn new(version: Version, schema_version: SchemaVersion, payload: Vec<u8>) -> (r: PendingSnapshot)
        ensures
            r.spec_version() == version,
            r.spec_schema_version() == schema_version,
            r.spec_payload() == payload@,
    {
        PendingSnapshot { version, schema_version, payload }
    }

    /// The aggregate version at the time of the snapshot.
    pub fn version(&self) -> (r: Version)
        ensures
            r == self.spec_version(),
    {
        self.version
    }

    /// The schema version for invalidation checking.
    pub fn schema_version(&self) -> (r: SchemaVersion)
        ensures
            r == self.spec_schema_version(),
    {
        self.schema_version
    }

    /// The serialized state bytes.
    pub fn payload(&self) -> (r: &[u8])
        ensures
            r@ == self.spec_payload(),
    {
        self.payload.as_slice()
    }
}

/// A snapshot loaded from storage (read path).
#[derive(Debug, Clone)]
pub struct PersistedSnapshot {
    version: Version,
    schema_version: SchemaVersion,
    payload: Vec<u8>,
}

impl PersistedSnapshot {
    pub closed spec fn spec_version(&self) -> Version {
        self.version
    }

    pub closed spec fn spec_schema_version(&self) -> SchemaVersion {
        self.schema_version
    }

    pub closed spec fn spec_payload(&self) -> Seq<u8> {
        self.payload@
    }

    /// A new persisted snapshot.
    pub fn new(version: Version, schema_version: SchemaVersion, payload: Vec<u8>) -> (r: PersistedSnapshot)
        ensures
            r.spec_version() == version,
            r.spec_schema_version() == schema_version,
            r.spec_payload() == payload@,
    {
        PersistedSnapshot { version, schema_version, payload }
    }

    /// The aggregate version at the time of the snapshot.
    pub fn version(&self) -> (r: Version)
        ensures
            r == self.spec_version(),
    {
        self.version
    }

    /// The schema version for invalidation checking.
    pub fn schema_version(&self) -> (r: SchemaVersion)
        ensures
            r == self.spec_schema_version(),
    {
        self.schema_version
    }

    /// The serialized state bytes.
    pub fn payload(&self) -> (r: &[u8])
        ensures
            r@ == self.spec_payload(),
    {
        self.payload.as_slice()
    }
}

} // verus!
