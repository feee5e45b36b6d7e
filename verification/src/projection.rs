//! Projections: the state payload a projection persists, the two state
//! persistence strategies, the runner's components, and the runner's
//! decisions — when to persist state and checkpoint, and what to flush on
//! shutdown — as a step function the driving loop consults.
use vstd::prelude::*;
use crate::version::{SchemaVersion, Version};

verus! {

broadcast use crate::version::group_positions;

/// Projection state ready for persistence: the stream version it was
/// computed at, a schema version for invalidation, and the serialized
/// state.
#[derive(Debug, Clone)]
pub struct PendingState {
    version: Version,
    schema_version: SchemaVersion,
    payload: Vec<u8>,
}

impl PendingState {
    pub closed spec fn spec_version(&self) -> Version {
        self.version
    }

    pub closed spec fn spec_schema_version(&self) -> SchemaVersion {
        self.schema_version
    }

    pub closed spec fn spec_payload(&self) -> Seq<u8> {
        self.payload@
    }

    /// A new pending projection state.
    pub fn new(version: Version, schema_version: SchemaVersion, payload: Vec<u8>) -> (r: PendingState)
        ensures
            r.spec_version() == version,
            r.spec_schema_version() == schema_version,
            r.spec_payload() == payload@,
    {
        PendingState { version, schema_version, payload }
    }

    /// The stream version at the time of state computation.
    pub fn version(&self) -> (r: Version)
        ensures
            r == self.spec_version(),
    {
        self.version
    }

    /// The schema version for invalidation checking.
    pub fn schema_version(&self) -> (r: SchemaVersion)
        ensures
            r == self.spec_schema_version(),
    {
        self.schema_version
    }

    /// The serialized state bytes.
    pub fn payload(&self) -> (r: &[u8])
        ensures
            r@ == self.spec_payload(),
    {
        self.payload.as_slice()
    }
}

/// State persistence disabled: loading finds nothing, saving discards.
#[derive(Debug, Clone, Copy)]
pub struct NoStatePersistence;

/// State persistence backed by a state store and a codec, at a fixed
/// schema version.
pub struct WithStatePersistence<SS, SC> {
    pub store: SS,
    pub codec: SC,
    pub schema_version: SchemaVersion,
}

impl<SS, SC> WithStatePersistence<SS, SC> {
    /// A state persistence with the given store, codec and schema version.
    pub fn new(store: SS, codec: SC, schema_version: SchemaVersion) -> (r: Self)
        ensures
            r.store == store,
            r.codec == codec,
            r.schema_version == schema_version,
    {
        WithStatePersistence { store, codec, schema_version }
    }
}

/// Why state persistence failed: the store or the codec.
#[derive(Debug)]
pub enum StatePersistError<S, C> {
    Store(S),
    Codec(C),
}

/// Why a projection run stopped.
#[derive(Debug)]
pub enum ProjectionError<P, EC, SP, CK, SUB> {
    /// The projector rejected an event.
    Projector(P),
    /// An event failed to decode.
    EventCodec(EC),
    /// Loading or saving state failed.
    State(SP),
    /// Loading or saving the checkpoint failed.
    Checkpoint(CK),
    /// The subscription failed.
    Subscription(SUB),
}

/// The components of a projection run: which projection, where its events
/// come from, where progress and state are kept, how events fold and
/// decode, and when state is persisted.
pub struct ProjectionRunner<I, Sub, Ckpt, SP, P, EC, Trig> {
    pub id: I,
    pub subscription: Sub,
    pub checkpoint: Ckpt,
    pub state_persistence: SP,
    pub projector: P,
    pub event_codec: EC,
    pub trigger: Trig,
}

impl<I, Sub, Ckpt, SP, P, EC, Trig> ProjectionRunner<I, Sub, Ckpt, SP, P, EC, Trig> {
    /// Assemble a runner from its components.
    pub fn new(
        id: I,
        subscription: Sub,
        checkpoint: Ckpt,
        state_persistence: SP,
        projector: P,
        event_codec: EC,
        trigger: Trig,
    ) -> (r: Self)
        ensures
            r.id == id && r.subscription == subscription && r.checkpoint == checkpoint
                && r.state_persistence == state_persistence && r.projector == projector
                && r.event_codec == event_codec && r.trigger == trigger,
    {
        ProjectionRunner {
            id,
            subscription,
            checkpoint,
            state_persistence,
            projector,
            event_codec,
            trigger,
        }
    }
}

/// Where a projection run stands: the version last persisted (state and
/// checkpoint), the version last applied, and whether applied state is
/// not yet persisted.
#[derive(Debug, Clone, Copy)]
pub struct RunnerProgress {
    last_persisted: Option<Version>,
    current: Option<Version>,
    dirty: bool,
}

impl RunnerProgress {
    pub closed spec fn spec_last_persisted(self) -> Option<Version> {
        self.last_persisted
    }

    pub closed spec fn spec_current(self) -> Option<Version> {
        self.current
    }

    pub closed spec fn spec_dirty(self) -> bool {
        self.dirty
    }

    /// Clean progress has nothing applied beyond what was persisted.
    pub open spec fn wf(self) -> bool {
        !self.spec_dirty() ==> self.spec_last_persisted() == self.spec_current()
    }

    /// Resume from the checkpoint: it is the source of truth for which
    /// events were processed.
    pub fn resume(checkpoint: Option<Version>) -> (r: RunnerProgress)
        ensures
            r.spec_last_persisted() == checkpoint,
            r.spec_current() == checkpoint,
            !r.spec_dirty(),
            r.wf(),
    {
        RunnerProgress { last_persisted: checkpoint, current: checkpoint, dirty: false }
    }

    /// The version last persisted.
    pub fn last_persisted(&self) -> (r: Option<Version>)
        ensures
            r == self.spec_last_persisted(),
    {
        self.last_persisted
    }

    /// The event at `version` was applied, and the trigger answered
    /// `fired` for the step from the last persisted version. Returns the
    /// version to persist state and checkpoint at now.
    pub fn applied(&mut self, version: Version, fired: bool) -> (r: Option<Version>)
        ensures
            final(self).spec_current() == Some(version),
            fired ==> r == Some(version) && final(self).spec_last_persisted() == Some(version)
                && !final(self).spec_dirty(),
            !fired ==> r is None && final(self).spec_last_persisted() == old(self).spec_last_persisted()
                && final(self).spec_dirty(),
            final(self).wf(),
    {
        self.current = Some(version);
        if fired {
            self.last_persisted = Some(version);
            self.dirty = false;
            Some(version)
        } else {
            self.dirty = true;
            None
        }
    }

    /// On shutdown or at the end of the stream: the version to flush state
    /// and checkpoint at, if applied state is not yet persisted.
    pub fn flush_target(&self) -> (r: Option<Version>)
        ensures
            r == (if self.spec_dirty() {
                self.spec_current()
            } else {
                None
            }),
    {
        if self.dirty {
            self.current
        } else {
            None
        }
    }

    /// Nothing applied is lost on shutdown: after the flush the run has
    /// persisted everything it applied.
    pub proof fn lemma_flush_covers_applied(self)
        requires
            self.wf(),
        ensures
            ({
                let durable = if self.spec_dirty() {
                    self.spec_current()
                } else {
                    self.spec_last_persisted()
                };
                durable == self.spec_current()
            }),
    {
    }
}

} // verus!
