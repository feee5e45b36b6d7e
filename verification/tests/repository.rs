use nexus_store::envelope::EnvelopeError;
use nexus_store::error::StoreError;
use nexus_store::repository::{first_persisted_version, plan_save, version_to_nz32, EncodedEvent};
use nexus_store::version::{ValueError, Version};

fn v(n: u64) -> Version {
    Version::new(n).expect("nonzero")
}

type E = StoreError<(), &'static str, ()>;

#[test]
fn fresh_stream_starts_at_initial() {
    assert_eq!(first_persisted_version(None), Some(Version::initial()));
}

#[test]
fn existing_stream_advances_by_one() {
    let v = Version::initial();
    assert_eq!(first_persisted_version(Some(v)), v.next());
}

#[test]
fn overflow_at_max_returns_none() {
    let max = Version::new(u64::MAX).expect("u64::MAX is non-zero");
    assert_eq!(first_persisted_version(Some(max)), None);
}

fn ok(name: &'static str, payload: &[u8], schema: Option<u64>) -> EncodedEvent<&'static str> {
    EncodedEvent {
        event_type: name,
        encoded: Ok(payload.to_vec()),
        schema: schema.map(v),
    }
}

#[test]
fn plan_save_stamps_contiguous_versions_and_schemas() {
    let plan = plan_save::<(), &'static str, ()>(
        Some(v(4)),
        vec![ok("Opened", b"a", None), ok("Credited", b"bb", Some(3))],
    )
    .map_err(|_| ())
    .expect("plans")
    .expect("events to append");
    assert_eq!(plan.expected_version, Some(v(4)));
    assert_eq!(plan.last_version, v(6));
    assert_eq!(plan.envelopes.len(), 2);
    assert_eq!(plan.envelopes[0].version(), v(5));
    assert_eq!(plan.envelopes[0].event_type(), "Opened");
    assert_eq!(plan.envelopes[0].payload(), b"a");
    assert_eq!(plan.envelopes[0].schema_version(), 1);
    assert_eq!(plan.envelopes[1].version(), v(6));
    assert_eq!(plan.envelopes[1].event_type(), "Credited");
    assert_eq!(plan.envelopes[1].schema_version(), 3);
    assert_eq!(plan.envelopes[1].metadata(), None);
}

#[test]
fn plan_save_on_fresh_stream_starts_at_one() {
    let plan = plan_save::<(), &'static str, ()>(None, vec![ok("E", b"x", None)])
        .map_err(|_| ())
        .expect("plans")
        .expect("events to append");
    assert_eq!(plan.expected_version, None);
    assert_eq!(plan.envelopes[0].version(), v(1));
    assert_eq!(plan.last_version, v(1));
}

#[test]
fn plan_save_reports_the_first_encode_error() {
    let events = vec![
        ok("A", b"a", None),
        EncodedEvent {
            event_type: "B",
            encoded: Err("cannot encode B"),
            schema: None,
        },
        EncodedEvent {
            event_type: "C",
            encoded: Err("cannot encode C"),
            schema: None,
        },
    ];
    match plan_save::<(), &'static str, ()>(None, events) {
        Err(StoreError::Encode(e)) => assert_eq!(e, "cannot encode B"),
        _ => panic!("expected the encode error of the second event"),
    }
}

#[test]
fn plan_save_at_u64_max_overflows() {
    let r: Result<_, E> = plan_save(Some(v(u64::MAX)), vec![ok("E", b"x", None)]);
    assert!(matches!(r, Err(StoreError::VersionOverflow)));
}

#[test]
fn plan_save_overflows_between_events_but_not_after_the_last() {
    let r: Result<_, E> = plan_save(Some(v(u64::MAX - 1)), vec![ok("E", b"x", None)]);
    let plan = r
        .map_err(|_| ())
        .expect("one event fits at u64::MAX")
        .expect("events to append");
    assert_eq!(plan.last_version, v(u64::MAX));
    let r: Result<_, E> = plan_save(
        Some(v(u64::MAX - 1)),
        vec![ok("E", b"x", None), ok("E", b"y", None)],
    );
    assert!(matches!(r, Err(StoreError::VersionOverflow)));
}

#[test]
fn plan_save_rejects_schema_version_past_u32() {
    let r: Result<_, E> = plan_save(None, vec![ok("E", b"x", Some(u64::from(u32::MAX) + 1))]);
    assert!(matches!(r, Err(StoreError::VersionOverflow)));
    assert!(version_to_nz32(v(u64::from(u32::MAX))).is_some());
    assert!(version_to_nz32(v(u64::from(u32::MAX) + 1)).is_none());
}

#[test]
fn envelope_error_type_is_reachable_from_save_errors() {
    let e: E = StoreError::Envelope(EnvelopeError::Value(ValueError::PayloadTooLong {
        actual: 5,
        max: 4,
    }));
    assert!(!e.is_conflict());
}

#[test]
fn plan_save_with_no_events_appends_nothing() {
    let r: Result<_, E> = plan_save(Some(v(3)), Vec::new());
    assert!(matches!(r, Ok(None)));
    let r: Result<_, E> = plan_save(Some(v(u64::MAX)), Vec::new());
    assert!(matches!(r, Ok(None)));
}

#[test]
fn plan_save_takes_an_event_name_of_any_length() {
    let long: &'static str = Box::leak("N".repeat(70_000).into_boxed_str());
    let plan = plan_save::<(), &'static str, ()>(None, vec![ok(long, b"p", None)])
        .map_err(|_| ())
        .expect("plans")
        .expect("events to append");
    assert_eq!(plan.envelopes[0].event_type().len(), 70_000);
    assert_eq!(plan.envelopes[0].event_type(), long);
    assert_eq!(plan.envelopes[0].version(), v(1));
}
