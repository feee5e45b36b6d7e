//! Versioned state values, generic over the state's form (bytes for
//! byte-level adapters, a typed value for typed ones): [`PendingState`] on
//! the write path, [`PersistedState`] on the read path, and [`State`] for
//! both.
use vstd::prelude::*;
use crate::version::{SchemaVersion, Version};

verus! {

/// State ready for persistence (write path).
#[derive(Debug, Clone)]
pub struct PendingState<S> {
    version: Version,
    schema_version: SchemaVersion,
    state: S,
}

impl<S> PendingState<S> {
    pub closed spec fn spec_version(&self) -> Version {
        self.version
    }

    pub closed spec fn spec_schema_version(&self) -> SchemaVersion {
        self.schema_version
    }

    pub closed spec fn spec_state(&self) -> S {
        self.state
    }

    /// Pair a state with its version and schema version.
    pub fn new(version: Version, schema_version: SchemaVersion, state: S) -> (r: Self)
        ensures
            r.spec_version() == version,
            r.spec_schema_version() == schema_version,
            r.spec_state() == state,
    {
        PendingState { version, schema_version, state }
    }

    /// The version the state was computed at.
    pub fn version(&self) -> (r: Version)
        ensures
            r == self.spec_version(),
    {
        self.version
    }

    /// The schema version for invalidation checking.
    pub fn schema_version(&self) -> (r: SchemaVersion)
        ensures
            r == self.spec_schema_version(),
    {
        self.schema_version
    }

    /// The state.
    pub fn state(&self) -> (r: &S)
        ensures
            *r == self.spec_state(),
    {
        &self.state
    }

    /// Version, schema version and state, taken apart.
    pub fn into_parts(self) -> (r: (Version, SchemaVersion, S))
        ensures
            r == (self.spec_version(), self.spec_schema_version(), self.spec_state()),
    {
        (self.version, self.schema_version, self.state)
    }
}

/// State loaded from storage (read path).
#[derive(Debug, Clone)]
pub struct PersistedState<S> {
    version: Version,
    schema_version: SchemaVersion,
    state: S,
}

impl<S> PersistedState<S> {
    pub closed spec fn spec_version(&self) -> Version {
        self.version
    }

    pub closed spec fn spec_schema_version(&self) -> SchemaVersion {
        self.schema_version
    }

    pub closed spec fn spec_state(&self) -> S {
        self.state
    }

    /// Pair a state with its version and schema version.
    pub fn new(version: Version, schema_version: SchemaVersion, state: S) -> (r: Self)
        ensures
            r.spec_version() == version,
            r.spec_schema_version() == schema_version,
            r.spec_state() == state,
    {
        PersistedState { version, schema_version, state }
    }

    /// The version the state was computed at.
    pub fn version(&self) -> (r: Version)
        ensures
            r == self.spec_version(),
    {
        self.version
    }

    /// The schema version for invalidation checking.
    pub fn schema_version(&self) -> (r: SchemaVersion)
        ensures
            r == self.spec_schema_version(),
    {
        self.schema_version
    }

    /// The state.
    pub fn state(&self) -> (r: &S)
        ensures
            *r == self.spec_state(),
    {
        &self.state
    }

    /// Version, schema version and state, taken apart.
    pub fn into_parts(self) -> (r: (Version, SchemaVersion, S))
        ensures
            r == (self.spec_version(), self.spec_schema_version(), self.spec_state()),
    {
        (self.version, self.schema_version, self.state)
    }
}

/// Versioned state, for the read and the write path.
#[derive(Debug, Clone)]
pub struct State<S> {
    version: Version,
    schema_version: SchemaVersion,
    state: S,
}

impl<S> State<S> {
    pub closed spec fn spec_version(&self) -> Version {
        self.version
    }

    pub closed spec fn spec_schema_version(&self) -> SchemaVersion {
        self.schema_version
    }

    pub closed spec fn spec_state(&self) -> S {
        self.state
    }

    /// Pair a state with its version and schema version.
    pub fn new(version: Version, schema_version: SchemaVersion, state: S) -> (r: Self)
        ensures
            r.spec_version() == version,
            r.spec_schema_version() == schema_version,
            r.spec_state() == state,
    {
        State { version, schema_version, state }
    }

    /// The version the state was computed at.
    pub fn version(&self) -> (r: Version)
        ensures
            r == self.spec_version(),
    {
        self.version
    }

    /// The schema version for invalidation checking.
    pub fn schema_version(&self) -> (r: SchemaVersion)
        ensures
            r == self.spec_schema_version(),
    {
        self.schema_version
    }

    /// The state.
    pub fn state(&self) -> (r: &S)
        ensures
            *r == self.spec_state(),
    {
        &self.state
    }

    /// Version, schema version and state, taken apart.
    pub fn into_parts(self) -> (r: (Version, SchemaVersion, S))
        ensures
            r == (self.spec_version(), self.spec_schema_version(), self.spec_state()),
    {
        (self.version, self.schema_version, self.state)
    }
}

} // verus!
