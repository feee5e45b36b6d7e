use nexus_store::conformance::{assert_strictly_increasing, ConformanceRow};
use nexus_store::facade::{snapshot_version, Store, Snapshotting, DEFAULT_SNAPSHOT_INTERVAL};
use nexus_store::notify::{NotifyError, SubscriberCounts};
use nexus_store::projection::RunnerProgress;
use nexus_store::services::{one, Either};
use nexus_store::trigger::{AfterEventTypes, EveryNEvents, PersistTrigger, ProjectionTrigger, SnapshotTrigger};
use nexus_store::upcast::{
    current_schema_version, run_upcasters, schema_probe, upcast_step, Chain, SchemaProbe, UpcastError,
    UpcastStep, UpcasterChain, UPCAST_CHAIN_LIMIT,
};
use nexus_store::version::{SchemaVersion, Version};

fn v(n: u64) -> Version {
    Version::new(n).expect("nonzero")
}

#[test]
fn every_n_events_fires_on_bucket_crossing_regardless_of_batch_size() {
    let t = EveryNEvents::new(3).expect("nonzero");
    assert!(!t.should_persist(None, v(2), &[]));
    assert!(t.should_persist(None, v(3), &[]));
    assert!(t.should_persist(Some(v(2)), v(3), &[]));
    assert!(!t.should_persist(Some(v(3)), v(5), &[]));
    // A batch that jumps over a boundary still fires.
    assert!(t.should_snapshot(Some(v(5)), v(7), &[]));
    // A batch spanning two boundaries fires once.
    assert!(t.should_project(Some(v(1)), v(9), &[]));
    assert!(EveryNEvents::new(0).is_none());
    assert_eq!(t.get(), 3);
}

#[test]
fn after_event_types_fires_on_any_listed_name() {
    let t = AfterEventTypes::new(&["Closed", "Archived"]);
    assert!(t.should_persist(None, v(1), &["Opened", "Closed"]));
    assert!(t.should_snapshot(Some(v(1)), v(2), &["Archived"]));
    assert!(!t.should_project(Some(v(1)), v(2), &["Opened", "Credited"]));
    assert!(!t.should_persist(None, v(1), &[]));
    let none = AfterEventTypes::new(&[]);
    assert!(!none.should_persist(None, v(1), &["Closed"]));
}

struct RenameV1;

impl UpcasterChain for RenameV1 {
    fn try_upcast(&self, event_type: &str, schema_version: u32, payload: &[u8]) -> Option<(String, u32, Vec<u8>)> {
        if event_type == "Old" && schema_version == 1 {
            let mut p = payload.to_vec();
            p.push(b'!');
            Some(("New".to_owned(), 2, p))
        } else {
            None
        }
    }

    fn can_upcast(&self, event_type: &str, schema_version: u32) -> bool {
        event_type == "Old" && schema_version == 1
    }
}

struct NewV2;

impl UpcasterChain for NewV2 {
    fn try_upcast(&self, event_type: &str, schema_version: u32, payload: &[u8]) -> Option<(String, u32, Vec<u8>)> {
        if event_type == "New" && schema_version == 2 {
            Some(("New".to_owned(), 3, payload.to_vec()))
        } else {
            None
        }
    }

    fn can_upcast(&self, event_type: &str, schema_version: u32) -> bool {
        event_type == "New" && schema_version == 2
    }
}

struct Stuck;

impl UpcasterChain for Stuck {
    fn try_upcast(&self, event_type: &str, schema_version: u32, payload: &[u8]) -> Option<(String, u32, Vec<u8>)> {
        Some((event_type.to_owned(), schema_version, payload.to_vec()))
    }

    fn can_upcast(&self, _event_type: &str, _schema_version: u32) -> bool {
        true
    }
}

struct Forever;

impl UpcasterChain for Forever {
    fn try_upcast(&self, event_type: &str, schema_version: u32, payload: &[u8]) -> Option<(String, u32, Vec<u8>)> {
        Some((event_type.to_owned(), schema_version.saturating_add(1), payload.to_vec()))
    }

    fn can_upcast(&self, _event_type: &str, _schema_version: u32) -> bool {
        true
    }
}

struct Blank;

impl UpcasterChain for Blank {
    fn try_upcast(&self, _event_type: &str, schema_version: u32, payload: &[u8]) -> Option<(String, u32, Vec<u8>)> {
        Some((String::new(), schema_version + 1, payload.to_vec()))
    }

    fn can_upcast(&self, _event_type: &str, _schema_version: u32) -> bool {
        true
    }
}

#[test]
fn upcasters_chain_until_none_applies() {
    let chain = Chain(RenameV1, Chain(NewV2, ()));
    let (t, sv, p) = run_upcasters(&chain, "Old", 1, b"x").expect("upcasts");
    assert_eq!(t, "New");
    assert_eq!(sv, 3);
    assert_eq!(p, b"x!");
    let (t, sv, p) = run_upcasters(&(), "Old", 1, b"x").expect("nothing to do");
    assert_eq!((t.as_str(), sv, p.as_slice()), ("Old", 1, b"x".as_slice()));
}

#[test]
fn upcaster_guards_report_each_violation() {
    assert_eq!(
        run_upcasters(&Stuck, "E", 4, b""),
        Err(UpcastError::VersionNotAdvanced {
            event_type: "E".to_owned(),
            input_version: 4,
            output_version: 4
        })
    );
    assert_eq!(
        run_upcasters(&Blank, "E", 1, b""),
        Err(UpcastError::EmptyEventType {
            input_event_type: "E".to_owned(),
            schema_version: 2
        })
    );
    assert_eq!(
        run_upcasters(&Forever, "E", 1, b""),
        Err(UpcastError::ChainLimitExceeded {
            event_type: "E".to_owned(),
            schema_version: 101,
            limit: 100
        })
    );
}

#[test]
fn current_schema_version_is_the_first_unhandled_version() {
    let chain = Chain(RenameV1, Chain(NewV2, ()));
    assert_eq!(current_schema_version(&chain, "Old"), 2);
    assert_eq!(current_schema_version(&chain, "New"), 1);
    assert_eq!(current_schema_version(&(), "Old"), 1);
    assert_eq!(current_schema_version(&Forever, "E"), 102);
}

#[test]
fn subscriber_counts_reap_at_zero_and_resubscribe_fresh() {
    let mut reg = SubscriberCounts::new();
    reg.subscribe(b"k").expect("first");
    reg.subscribe(b"k").expect("second");
    assert_eq!(reg.active_streams(), 1);
    assert_eq!(reg.subscribers(b"k"), 2);
    assert!(!reg.release(b"k"));
    assert_eq!(reg.active_streams(), 1);
    assert!(reg.release(b"k"));
    assert_eq!(reg.active_streams(), 0);
    assert!(!reg.release(b"k"), "releasing an absent key is a no-op");
    reg.subscribe(b"").expect("empty key is valid");
    reg.subscribe(b"other").expect("distinct stream");
    assert_eq!(reg.active_streams(), 2);
    assert_eq!(reg.subscribers(b"k"), 0);
    let _ = NotifyError::SubscriberOverflow;
}

#[test]
fn runner_persists_when_trigger_fires_and_flushes_dirty_state() {
    let trigger = EveryNEvents::new(2).expect("nonzero");
    let mut p = RunnerProgress::resume(None);
    assert_eq!(p.flush_target(), None);
    let fired = trigger.should_project(p.last_persisted(), v(1), &["E"]);
    assert_eq!(p.applied(v(1), fired), None);
    assert_eq!(p.flush_target(), Some(v(1)));
    let fired = trigger.should_project(p.last_persisted(), v(2), &["E"]);
    assert_eq!(p.applied(v(2), fired), Some(v(2)));
    assert_eq!(p.last_persisted(), Some(v(2)));
    assert_eq!(p.flush_target(), None);
    let fired = trigger.should_project(p.last_persisted(), v(3), &["E"]);
    assert_eq!(p.applied(v(3), fired), None);
    assert_eq!(p.flush_target(), Some(v(3)));

    let milestone = AfterEventTypes::new(&["Closed"]);
    let mut q = RunnerProgress::resume(Some(v(10)));
    assert_eq!(q.last_persisted(), Some(v(10)));
    let fired = milestone.should_project(q.last_persisted(), v(11), &["Opened"]);
    assert_eq!(q.applied(v(11), fired), None);
    let fired = milestone.should_project(q.last_persisted(), v(12), &["Closed"]);
    assert_eq!(q.applied(v(12), fired), Some(v(12)));
    assert_eq!(q.flush_target(), None);
}

#[test]
fn builder_defaults_and_snapshot_decisions() {
    let store = Store::new(5u8);
    assert_eq!(*store.raw(), 5);
    assert_eq!(**store.arc(), 5);
    let b = store.repository().codec("codec").snapshot_store("snapshots");
    assert_eq!(b.snapshot.trigger.get(), DEFAULT_SNAPSHOT_INTERVAL);
    assert_eq!(b.snapshot.schema_version.get(), 1);
    assert!(!b.snapshot.snapshot_on_read);
    let b = b
        .snapshot_schema_version(SchemaVersion::from_u32(4).expect("nonzero"))
        .snapshot_on_read(true)
        .snapshot_trigger(AfterEventTypes::new(&["Closed"]));
    let snap = b.build();
    assert_eq!(snap.schema_version.get(), 4);
    assert!(snap.snapshot_on_read);
    assert_eq!(*snap.inner.store.raw(), 5);
    assert_eq!(snap.snapshot_after_load(Some(v(3))), Some(v(3)));
    assert_eq!(snap.snapshot_after_save(Some(v(1)), Some(v(2)), &["Closed"]), Some(v(2)));
    assert_eq!(snap.snapshot_after_save(Some(v(1)), Some(v(2)), &["Opened"]), None);
    assert_eq!(Snapshotting::<(), (), EveryNEvents>::replay_start(v(u64::MAX)), None);
    assert_eq!(Snapshotting::<(), (), EveryNEvents>::replay_start(v(7)), Some(v(8)));
    assert_eq!(snapshot_version(Some(v(9)), true), Some(v(9)));
    assert_eq!(snapshot_version(Some(v(9)), false), None);
    assert_eq!(snapshot_version(None, true), None);

    let es = Store::new(1u8).repository().codec(()).build().with_upcaster(RenameV1);
    assert!(es.upcasters.can_upcast("Old", 1));
}

#[test]
fn conformance_rows_and_order_check() {
    let row = ConformanceRow::new(3, "E", b"p".to_vec()).with_schema_version(7);
    assert_eq!(row.version, 3);
    assert_eq!(row.event_type, "E");
    assert_eq!(row.schema_version, 7);
    assert_eq!(row.payload, b"p");
    assert!(assert_strictly_increasing(&[]));
    assert!(assert_strictly_increasing(&[(1, vec![]), (4, vec![]), (9, vec![])]));
    assert!(!assert_strictly_increasing(&[(1, vec![]), (4, vec![]), (4, vec![])]));
    assert!(!assert_strictly_increasing(&[(5, vec![]), (2, vec![])]));
}

#[test]
fn heterogeneous_list_helpers() {
    let (x,) = one(5);
    assert_eq!(x, 5);
    let e: Either<u8, &str> = Either::B("b");
    assert!(matches!(e, Either::B("b")));
}

#[test]
fn upcast_step_judges_each_answer() {
    assert!(matches!(upcast_step("E".into(), 1, 0, None), UpcastStep::Done));
    assert!(matches!(
        upcast_step("E".into(), 1, 0, Some(("F".into(), 2, vec![1]))),
        UpcastStep::Next(t, 2, p) if t == "F" && p == vec![1]
    ));
    assert!(matches!(
        upcast_step("E".into(), 3, 100, Some(("F".into(), 4, vec![]))),
        UpcastStep::Refused(UpcastError::ChainLimitExceeded { schema_version: 3, limit: 100, .. })
    ));
    assert!(matches!(
        upcast_step("E".into(), 3, 0, Some(("F".into(), 2, vec![]))),
        UpcastStep::Refused(UpcastError::VersionNotAdvanced { input_version: 3, output_version: 2, .. })
    ));
}

#[test]
fn schema_probe_stops_at_the_first_unclaimed_version_or_past_the_limit() {
    assert_eq!(schema_probe(1, false), SchemaProbe::Found(1));
    assert_eq!(schema_probe(3, true), SchemaProbe::Next(4));
    assert_eq!(schema_probe(UPCAST_CHAIN_LIMIT, true), SchemaProbe::Next(UPCAST_CHAIN_LIMIT + 1));
    assert_eq!(schema_probe(UPCAST_CHAIN_LIMIT + 1, true), SchemaProbe::Found(UPCAST_CHAIN_LIMIT + 2));
    assert_eq!(schema_probe(UPCAST_CHAIN_LIMIT + 1, false), SchemaProbe::Found(UPCAST_CHAIN_LIMIT + 1));
}
