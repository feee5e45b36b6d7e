//! The shared store handle and the repository facades built on it: the
//! typestate builder, the owning and zero-copy event stores (with their
//! upcaster chains), the snapshotting decorator's decisions, and the
//! codec-backed snapshot and state stores.
use std::sync::Arc;
use vstd::prelude::*;
use crate::trigger::{names_view, EveryNEvents, PersistTrigger};
use crate::upcast::Chain;
use crate::version::{SchemaVersion, Version};

verus! {

broadcast use crate::version::group_positions;

/// Serialize events to bytes and back, for owning decoders.
pub trait Codec<E> {
    /// Why a value could not be encoded or decoded.
    type Error;

    /// Serialize an event.
    fn encode(&self, event: &E) -> Result<Vec<u8>, Self::Error>;

    /// Deserialize an event of type `name` from `payload`.
    fn decode(&self, name: &str, payload: &[u8]) -> Result<E, Self::Error>;
}

/// Serialize events to bytes and read them back in place, for zero-copy
/// decoders.
pub trait BorrowingCodec<E> {
    /// Why a value could not be encoded or decoded.
    type Error;

    /// Serialize an event.
    fn encode(&self, event: &E) -> Result<Vec<u8>, Self::Error>;

    /// Reinterpret `payload` as an event of type `event_type`.
    fn decode<'a>(&self, event_type: &str, payload: &'a [u8]) -> Result<&'a E, Self::Error>;
}

/// A serde-driven codec over a wire format `F`.
#[derive(Debug, Clone, Copy, Default)]
pub struct SerdeCodec<F> {
    pub format: F,
}

impl<F> SerdeCodec<F> {
    /// A codec wrapping the given format.
    pub fn new(format: F) -> (r: Self)
        ensures
            r.format == format,
    {
        SerdeCodec { format }
    }
}

/// The JSON wire format.
#[derive(Debug, Clone, Copy, Default)]
pub struct Json;

/// The shared, cheaply cloneable handle on a raw event store.
#[derive(Debug)]
pub struct Store<S> {
    inner: Arc<S>,
}

impl<S> Store<S> {
    /// The raw store behind the handle.
    pub closed spec fn spec_raw(&self) -> S {
        *self.inner
    }

    /// Wrap a raw store.
    pub fn new(raw: S) -> (r: Self)
        ensures
            r.spec_raw() == raw,
    {
        Store { inner: Arc::new(raw) }
    }

    /// The raw store, for adapter-level operations.
    pub fn raw(&self) -> (r: &S)
        ensures
            *r == self.spec_raw(),
    {
        &*self.inner
    }

    /// The shared pointer itself.
    pub fn arc(&self) -> (r: &Arc<S>)
        ensures
            **r == self.spec_raw(),
    {
        &self.inner
    }

    /// Another handle on the same store.
    pub fn duplicate(&self) -> (r: Self)
        ensures
            r.spec_raw() == self.spec_raw(),
    {
        Store { inner: Arc::clone(&self.inner) }
    }

    /// Start configuring a repository on this store; a codec must be
    /// chosen before building.
    pub fn repository(&self) -> (r: RepositoryBuilder<S, NeedsCodec, NoSnapshot>)
        ensures
            r.store.spec_raw() == self.spec_raw(),
    {
        RepositoryBuilder { store: self.duplicate(), codec: NeedsCodec, snapshot: NoSnapshot }
    }
}

impl<S> Clone for Store<S> {
    fn clone(&self) -> (r: Self)
        ensures
            r.spec_raw() == self.spec_raw(),
    {
        self.duplicate()
    }
}

/// The builder's codec slot before a codec is chosen.
#[derive(Debug, Clone, Copy)]
pub struct NeedsCodec;

/// The builder's snapshot slot without snapshotting.
#[derive(Debug, Clone, Copy)]
pub struct NoSnapshot;

/// The builder's snapshot slot with snapshotting: the store, the trigger,
/// the snapshot schema version, and whether a full replay on read writes a
/// snapshot.
pub struct WithSnapshot<SS, T> {
    pub store: SS,
    pub trigger: T,
    pub schema_version: SchemaVersion,
    pub snapshot_on_read: bool,
}

/// The interval of the default snapshot trigger.
pub const DEFAULT_SNAPSHOT_INTERVAL: u64 = 100;

/// Typestate builder for the repository facades.
pub struct RepositoryBuilder<S, C, Snap> {
    pub store: Store<S>,
    pub codec: C,
    pub snapshot: Snap,
}

impl<S, C, Snap> RepositoryBuilder<S, C, Snap> {
    /// Choose the codec.
    pub fn codec<NewC>(self, codec: NewC) -> (r: RepositoryBuilder<S, NewC, Snap>)
        ensures
            r.store == self.store,
            r.codec == codec,
            r.snapshot == self.snapshot,
    {
        RepositoryBuilder { store: self.store, codec, snapshot: self.snapshot }
    }
}

impl<S, C> RepositoryBuilder<S, C, NoSnapshot> {
    /// The owning-codec event store.
    pub fn build(self) -> (r: EventStore<S, C, ()>)
        ensures
            r.store == self.store,
            r.codec == self.codec,
    {
        EventStore::new(self.store, self.codec)
    }

    /// The zero-copy event store.
    pub fn build_zero_copy(self) -> (r: ZeroCopyEventStore<S, C, ()>)
        ensures
            r.store == self.store,
            r.codec == self.codec,
    {
        ZeroCopyEventStore::new(self.store, self.codec)
    }

    /// Enable snapshotting on `snapshot_store`, with the defaults: a
    /// snapshot every [`DEFAULT_SNAPSHOT_INTERVAL`] events, schema version
    /// 1, no snapshot on read.
    pub fn snapshot_store<SS>(self, snapshot_store: SS) -> (r: RepositoryBuilder<
        S,
        C,
        WithSnapshot<SS, EveryNEvents>,
    >)
        ensures
            r.store == self.store,
            r.codec == self.codec,
            r.snapshot.store == snapshot_store,
            r.snapshot.trigger.spec_n() == DEFAULT_SNAPSHOT_INTERVAL,
            r.snapshot.trigger.wf(),
            r.snapshot.schema_version.spec_u32() == 1,
            !r.snapshot.snapshot_on_read,
    {
        let trigger = EveryNEvents::new(DEFAULT_SNAPSHOT_INTERVAL).unwrap();
        RepositoryBuilder {
            store: self.store,
            codec: self.codec,
            snapshot: WithSnapshot {
                store: snapshot_store,
                trigger,
                schema_version: SchemaVersion::initial(),
                snapshot_on_read: false,
            },
        }
    }
}

impl<S, C, SS, T> RepositoryBuilder<S, C, WithSnapshot<SS, T>> {
    /// Replace the snapshot trigger.
    pub fn snapshot_trigger<NewT: PersistTrigger>(self, trigger: NewT) -> (r: RepositoryBuilder<
        S,
        C,
        WithSnapshot<SS, NewT>,
    >)
        ensures
            r.store == self.store,
            r.codec == self.codec,
            r.snapshot.store == self.snapshot.store,
            r.snapshot.trigger == trigger,
            r.snapshot.schema_version == self.snapshot.schema_version,
            r.snapshot.snapshot_on_read == self.snapshot.snapshot_on_read,
    {
        RepositoryBuilder {
            store: self.store,
            codec: self.codec,
            snapshot: WithSnapshot {
                store: self.snapshot.store,
                trigger,
                schema_version: self.snapshot.schema_version,
                snapshot_on_read: self.snapshot.snapshot_on_read,
            },
        }
    }

    /// Set the snapshot schema version (a different one invalidates old
    /// snapshots).
    pub fn snapshot_schema_version(self, version: SchemaVersion) -> (r: Self)
        ensures
            r.store == self.store,
            r.codec == self.codec,
            r.snapshot.store == self.snapshot.store,
            r.snapshot.trigger == self.snapshot.trigger,
            r.snapshot.schema_version == version,
            r.snapshot.snapshot_on_read == self.snapshot.snapshot_on_read,
    {
        let mut s = self;
        s.snapshot.schema_version = version;
        s
    }

    /// Whether a full replay on read writes a snapshot.
    pub fn snapshot_on_read(self, enabled: bool) -> (r: Self)
        ensures
            r.store == self.store,
            r.codec == self.codec,
            r.snapshot.store == self.snapshot.store,
            r.snapshot.trigger == self.snapshot.trigger,
            r.snapshot.schema_version == self.snapshot.schema_version,
            r.snapshot.snapshot_on_read == enabled,
    {
        let mut s = self;
        s.snapshot.snapshot_on_read = enabled;
        s
    }

    /// The snapshotting owning-codec event store.
    pub fn build(self) -> (r: Snapshotting<EventStore<S, C, ()>, SS, T>)
        ensures
            r.inner.store == self.store,
            r.inner.codec == self.codec,
            r.snapshot_store == self.snapshot.store,
            r.trigger == self.snapshot.trigger,
            r.schema_version == self.snapshot.schema_version,
            r.snapshot_on_read == self.snapshot.snapshot_on_read,
    {
        let inner = EventStore::new(self.store, self.codec);
        let snap = self.snapshot;
        Snapshotting::new(inner, snap.store, snap.trigger, snap.schema_version, snap.snapshot_on_read)
    }

    /// The snapshotting zero-copy event store.
    pub fn build_zero_copy(self) -> (r: Snapshotting<ZeroCopyEventStore<S, C, ()>, SS, T>)
        ensures
            r.inner.store == self.store,
            r.inner.codec == self.codec,
            r.snapshot_store == self.snapshot.store,
            r.trigger == self.snapshot.trigger,
            r.schema_version == self.snapshot.schema_version,
            r.snapshot_on_read == self.snapshot.snapshot_on_read,
    {
        let inner = ZeroCopyEventStore::new(self.store, self.codec);
        let snap = self.snapshot;
        Snapshotting::new(inner, snap.store, snap.trigger, snap.schema_version, snap.snapshot_on_read)
    }
}

/// Event store facade over an owning codec, with an upcaster chain.
pub struct EventStore<S, C, U> {
    pub store: Store<S>,
    pub codec: C,
    pub upcasters: U,
}

impl<S, C> EventStore<S, C, ()> {
    /// An event store with no upcasters.
    pub fn new(store: Store<S>, codec: C) -> (r: Self)
        ensures
            r.store == store,
            r.codec == codec,
    {
        EventStore { store, codec, upcasters: () }
    }
}

impl<S, C, U> EventStore<S, C, U> {
    /// Put `upcaster` in front of the chain (checked first on reads).
    pub fn with_upcaster<H>(self, upcaster: H) -> (r: EventStore<S, C, Chain<H, U>>)
        ensures
            r.store == self.store,
            r.codec == self.codec,
            r.upcasters.0 == upcaster,
            r.upcasters.1 == self.upcasters,
    {
        EventStore { store: self.store, codec: self.codec, upcasters: Chain(upcaster, self.upcasters) }
    }
}

/// Event store facade over a zero-copy codec, with an upcaster chain.
pub struct ZeroCopyEventStore<S, C, U> {
    pub store: Store<S>,
    pub codec: C,
    pub upcasters: U,
}

impl<S, C> ZeroCopyEventStore<S, C, ()> {
    /// A zero-copy event store with no upcasters.
    pub fn new(store: Store<S>, codec: C) -> (r: Self)
        ensures
            r.store == store,
            r.codec == codec,
    {
        ZeroCopyEventStore { store, codec, upcasters: () }
    }
}

impl<S, C, U> ZeroCopyEventStore<S, C, U> {
    /// Put `upcaster` in front of the chain.
    pub fn with_upcaster<H>(self, upcaster: H) -> (r: ZeroCopyEventStore<S, C, Chain<H, U>>)
        ensures
            r.store == self.store,
            r.codec == self.codec,
            r.upcasters.0 == upcaster,
            r.upcasters.1 == self.upcasters,
    {
        ZeroCopyEventStore {
            store: self.store,
            codec: self.codec,
            upcasters: Chain(upcaster, self.upcasters),
        }
    }
}

/// Repository decorator that hydrates from a snapshot on read and
/// commits a snapshot when its trigger fires after a save.
pub struct Snapshotting<R, SS, T> {
    pub inner: R,
    pub snapshot_store: SS,
    pub trigger: T,
    pub schema_version: SchemaVersion,
    pub snapshot_on_read: bool,
}

impl<R, SS, T> Snapshotting<R, SS, T> {
    /// Wrap a repository.
    pub fn new(inner: R, snapshot_store: SS, trigger: T, schema_version: SchemaVersion, snapshot_on_read: bool) -> (r: Self)
        ensures
            r.inner == inner,
            r.snapshot_store == snapshot_store,
            r.trigger == trigger,
            r.schema_version == schema_version,
            r.snapshot_on_read == snapshot_on_read,
    {
        Snapshotting { inner, snapshot_store, trigger, schema_version, snapshot_on_read }
    }

    /// After a snapshot at `snapshot_version` is restored, where replay of
    /// the remaining events starts; `None` at `u64::MAX` (nothing can
    /// follow, so the snapshot is not used).
    pub fn replay_start(snapshot_version: Version) -> (r: Option<Version>)
        ensures
            snapshot_version.spec_u64() < u64::MAX ==> r == Some(
                Version::of((snapshot_version.spec_u64() + 1) as u64),
            ),
            snapshot_version.spec_u64() == u64::MAX ==> r is None,
    {
        snapshot_version.next()
    }

    /// After a full replay on read: the version to snapshot at, when
    /// snapshot-on-read is on and the stream is not empty.
    pub fn snapshot_after_load(&self, version: Option<Version>) -> (r: Option<Version>)
        ensures
            r == (if self.snapshot_on_read {
                version
            } else {
                None
            }),
    {
        if self.snapshot_on_read {
            version
        } else {
            None
        }
    }
}

impl<R, SS, T: PersistTrigger> Snapshotting<R, SS, T> {
    /// After a save moved the aggregate from `old_version` to
    /// `new_version` with the named events: the version to snapshot at,
    /// when the trigger fires (never when the stream is still empty). The
    /// trigger is asked about exactly this move; for a trigger that states
    /// its answer, the result is exact.
    pub fn snapshot_after_save(&self, old_version: Option<Version>, new_version: Option<Version>, event_names: &[&str]) -> (r: Option<Version>)
        ensures
            new_version is None ==> r is None,
            r is Some ==> r == new_version,
            T::obeys_trigger_spec() ==> r == (match new_version {
                Some(v) => if self.trigger.fires(old_version, v, names_view(event_names)) {
                    new_version
                } else {
                    None
                },
                None => None,
            }),
    {
        match new_version {
            Some(v) => {
                let fired = self.trigger.should_persist(old_version, v, event_names);
                snapshot_version(new_version, fired)
            },
            None => None,
        }
    }
}

/// The version to snapshot at after a save, given whether the trigger
/// fired: the new version when there is one and the trigger fired.
pub fn snapshot_version(new_version: Option<Version>, fired: bool) -> (r: Option<Version>)
    ensures
        r == (if fired {
            new_version
        } else {
            None
        }),
{
    if fired {
        new_version
    } else {
        None
    }
}

/// Adapts a byte-level snapshot store to typed state through a codec.
pub struct CodecSnapshotStore<SS, C> {
    pub store: SS,
    pub codec: C,
}

impl<SS, C> CodecSnapshotStore<SS, C> {
    /// Pair a byte-level store with a codec.
    pub fn new(store: SS, codec: C) -> (r: Self)
        ensures
            r.store == store,
            r.codec == codec,
    {
        CodecSnapshotStore { store, codec }
    }
}

/// Why a codec-backed snapshot operation failed.
#[derive(Debug)]
pub enum CodecSnapshotStoreError<S, EncErr, DecErr> {
    Store(S),
    Encode(EncErr),
    Decode(DecErr),
}

/// Adapts a byte-level state store to typed state through a codec.
pub struct CodecStateStore<SS, C> {
    pub store: SS,
    pub codec: C,
}

impl<SS, C> CodecStateStore<SS, C> {
    /// Pair a byte-level store with a codec.
    pub fn new(store: SS, codec: C) -> (r: Self)
        ensures
            r.store == store,
            r.codec == codec,
    {
        CodecStateStore { store, codec }
    }
}

/// Why a codec-backed state operation failed.
#[derive(Debug)]
pub enum CodecStateStoreError<S, C> {
    Store(S),
    Codec(C),
}

} // verus!
