use std::ops::Range;

use nexus_store::envelope::{
    pending_envelope, EnvelopeError, ForDecodeError, PendingEnvelope, PersistedEnvelope,
};
use nexus_store::version::ValueError;
use nexus_store::value::MAX_EVENT_TYPE_LEN;
use nexus_store::version::{GlobalSeq, SchemaVersion, Version};

fn v(n: u64) -> Version {
    Version::new(n).expect("test version must be nonzero")
}

fn sv(n: u32) -> SchemaVersion {
    SchemaVersion::from_u32(n).expect("test schema_version must be nonzero")
}

fn gs(n: u64) -> GlobalSeq {
    GlobalSeq::new(n).expect("test global_seq must be nonzero")
}

fn assemble(
    event_type: &[u8],
    payload: &[u8],
    metadata: Option<&[u8]>,
) -> (Vec<u8>, Range<u32>, Range<u32>, Option<Range<u32>>) {
    let mut buf = Vec::new();
    buf.extend_from_slice(event_type);
    buf.extend_from_slice(payload);
    if let Some(m) = metadata {
        buf.extend_from_slice(m);
    }
    let et_end = u32::try_from(event_type.len()).expect("event_type len fits u32");
    let pl_end = et_end + u32::try_from(payload.len()).expect("payload len fits u32");
    let meta_range = metadata.map(|m| {
        let end = pl_end + u32::try_from(m.len()).expect("metadata len fits u32");
        pl_end..end
    });
    (buf, 0..et_end, et_end..pl_end, meta_range)
}

fn build(
    version: Version,
    global_seq: GlobalSeq,
    schema: SchemaVersion,
    event_type: &[u8],
    payload: &[u8],
    metadata: Option<&[u8]>,
) -> PersistedEnvelope {
    let (value, et, pl, meta) = assemble(event_type, payload, metadata);
    PersistedEnvelope::try_new(version, global_seq, value, schema, et, pl, meta)
        .expect("components form a valid PersistedEnvelope")
}

fn raw(value: &[u8], et: Range<u32>, pl: Range<u32>, meta: Option<Range<u32>>) -> Result<PersistedEnvelope, EnvelopeError> {
    PersistedEnvelope::try_new(Version::initial(), gs(1), value.to_vec(), SchemaVersion::initial(), et, pl, meta)
}

#[test]
fn pending_envelope_builds_with_metadata() {
    let env = pending_envelope(Version::initial())
        .event_type("UserCreated")
        .payload(b"payload-bytes".to_vec())
        .expect("valid payload")
        .with_metadata(b"meta-bytes".to_vec())
        .expect("valid metadata");

    assert_eq!(env.event_type(), "UserCreated");
    assert_eq!(env.payload(), b"payload-bytes");
    assert_eq!(env.metadata(), Some(b"meta-bytes".as_slice()));
    assert_eq!(env.schema_version(), 1);
}

#[test]
fn pending_envelope_builds_without_metadata() {
    let env = pending_envelope(Version::initial())
        .event_type("X")
        .payload(b"p".to_vec())
        .expect("valid payload")
        .build();

    assert_eq!(env.metadata(), None);
}

#[test]
fn pending_envelope_typed_accessors_roundtrip() {
    let env = pending_envelope(Version::initial())
        .event_type("UserCreated")
        .payload(b"payload-bytes".to_vec())
        .expect("valid payload")
        .with_metadata(b"meta-bytes".to_vec())
        .expect("valid metadata");

    assert_eq!(env.event_type_value().as_str(), "UserCreated");
    assert_eq!(env.payload_value().as_slice(), b"payload-bytes");
    assert_eq!(
        env.metadata_value().map(|m| m.as_slice().to_vec()),
        Some(b"meta-bytes".to_vec())
    );
    assert_eq!(env.schema_version_value().get(), 1);
}

#[test]
fn pending_envelope_rejects_oversize_event_type() {
    let oversized = "x".repeat(MAX_EVENT_TYPE_LEN + 1);
    let err = pending_envelope(Version::initial())
        .event_type_bytes(oversized.into_bytes())
        .expect_err("oversized must be rejected");
    assert!(matches!(err, EnvelopeError::Value(_)));
}

#[test]
fn persisted_envelope_accessors_return_views_into_value() {
    let env = PersistedEnvelope::try_new(
        Version::initial(),
        gs(1),
        b"TYPEpayloadmeta".to_vec(),
        SchemaVersion::initial(),
        0..4,
        4..11,
        Some(11..15),
    )
    .expect("valid construction");

    assert_eq!(env.event_type(), "TYPE");
    assert_eq!(env.payload(), b"payload");
    assert_eq!(env.metadata(), Some(b"meta".as_slice()));
}

#[test]
fn persisted_envelope_payload_bytes_shares_arc() {
    let env = raw(b"TYPEpayload", 0..4, 4..11, None).unwrap();
    let payload = env.payload_bytes();
    assert_eq!(payload.as_slice(), b"payload");
}

#[test]
fn persisted_envelope_rejects_range_past_buffer() {
    let err = raw(b"short", 0..4, 4..100, None).expect_err("must reject out-of-bounds range");
    assert!(matches!(err, EnvelopeError::RangeOutOfBounds { .. }));
}

#[test]
fn try_new_rejects_event_type_range_too_long() {
    let len = MAX_EVENT_TYPE_LEN + 1;
    let mut buf = vec![0u8; len];
    buf[0] = b'A';
    let too_long_end = u32::try_from(len).expect("len fits in u32 by construction");

    let err = raw(&buf, 0..too_long_end, too_long_end..too_long_end, None)
        .expect_err("event_type range > MAX_EVENT_TYPE_LEN must be rejected");

    let expected_actual = u32::try_from(len).expect("len fits in u32 by construction (above)");
    assert!(matches!(
        err,
        EnvelopeError::EventTypeRangeTooLong { actual, max }
            if actual == expected_actual && max == MAX_EVENT_TYPE_LEN
    ));
}

#[test]
fn persisted_envelope_rejects_empty_metadata_range() {
    let env = raw(b"TYPEpayload", 0..4, 4..11, Some(4..4));
    assert!(matches!(env, Err(EnvelopeError::MetadataRangeEmpty)));
}

#[test]
fn persisted_envelope_rejects_invalid_utf8_in_event_type() {
    let err = raw(&[0xFFu8, 0xFF, b'p', b'a', b'y'], 0..2, 2..5, None)
        .expect_err("must reject non-UTF-8 event_type");
    assert!(matches!(err, EnvelopeError::InvalidUtf8 { .. }));
}

#[test]
fn persisted_envelope_event_type_value_returns_validated_value_newtype() {
    let env = raw(b"TYPEpayload", 0..4, 4..11, None).expect("valid");
    let et = env.event_type_value();
    assert_eq!(et.as_str(), "TYPE");
}

#[test]
fn persisted_envelope_payload_value_returns_validated_value_newtype() {
    let env = raw(b"TYPEpayload", 0..4, 4..11, None).expect("valid");
    let p = env.payload_value();
    assert_eq!(p.as_slice(), b"payload");
}

#[test]
fn persisted_envelope_metadata_value_returns_some_when_present() {
    let env = raw(b"TYPEpayloadMETA", 0..4, 4..11, Some(11..15)).expect("valid");
    let m = env.metadata_value().expect("present");
    assert_eq!(m.as_slice(), b"META");
}

#[test]
fn persisted_envelope_metadata_value_returns_none_when_absent() {
    let env = raw(b"TYPEpayload", 0..4, 4..11, None).expect("valid");
    assert!(env.metadata_value().is_none());
}

#[test]
fn from_persisted_preserves_fields_drops_global_seq_zero_copy() {
    let persisted = PersistedEnvelope::try_new(
        v(7),
        gs(99),
        b"TYPEpayloadmeta".to_vec(),
        sv(3),
        0..4,
        4..11,
        Some(11..15),
    )
    .expect("valid");

    let pending = PendingEnvelope::from_persisted(&persisted);

    assert_eq!(pending.version(), persisted.version());
    assert_eq!(pending.event_type(), "TYPE");
    assert_eq!(pending.payload(), b"payload");
    assert_eq!(pending.metadata(), Some(b"meta".as_slice()));
    assert_eq!(pending.schema_version(), 3);
}

#[test]
fn envelope_repeated_accessor_calls_are_consistent() {
    let event = build(v(9), gs(5), sv(4), b"TYPE", b"payload", Some(b"meta"));

    assert_eq!(event.event_type(), event.event_type());
    assert_eq!(event.payload(), event.payload());
    assert_eq!(event.metadata(), event.metadata());

    assert_eq!(event.event_type().as_bytes(), event.event_type_bytes().as_slice());
    assert_eq!(event.payload(), event.payload_bytes().as_slice());
    assert_eq!(event.metadata(), event.metadata_bytes().as_deref());

    assert_eq!(event.event_type(), event.event_type_value().as_str());
    assert_eq!(event.payload(), event.payload_value().as_slice());
    assert_eq!(
        event.metadata(),
        event.metadata_value().as_ref().map(|m| m.as_slice()),
    );

    assert_eq!(event.version(), v(9));
    assert_eq!(event.version(), event.version());
    assert_eq!(event.global_seq(), gs(5));
    assert_eq!(event.global_seq(), event.global_seq());
    assert_eq!(event.schema_version(), 4);
    assert_eq!(event.schema_version_value(), sv(4));
}

#[test]
fn envelope_clone_is_field_for_field_equal_view() {
    let original = build(v(42), gs(7), sv(7), b"OrderPlaced", b"the-payload", Some(b"the-meta"));
    let cloned = original.clone();

    assert_eq!(cloned.version(), original.version());
    assert_eq!(cloned.global_seq(), original.global_seq());
    assert_eq!(cloned.schema_version(), original.schema_version());
    assert_eq!(cloned.schema_version_value(), original.schema_version_value());
    assert_eq!(cloned.event_type(), original.event_type());
    assert_eq!(cloned.payload(), original.payload());
    assert_eq!(cloned.metadata(), original.metadata());
    assert_eq!(
        cloned.metadata_value().map(|m| m.as_slice().to_vec()),
        original.metadata_value().map(|m| m.as_slice().to_vec()),
    );
}

#[test]
fn envelope_rejects_inverted_range_start_after_end() {
    let (bad_start, bad_end) = (7u32, 2u32);
    let err = raw(b"TYPEpayload", 0..4, bad_start..bad_end, None).expect_err("start > end must be rejected");
    assert!(matches!(err, EnvelopeError::RangeOutOfBounds { start: 7, end: 2, .. }));
}

#[test]
fn event_type_cap_uses_range_length_not_endpoint_sum() {
    let start: u32 = 40_000;
    let end: u32 = 70_000;
    let buf_len = usize::try_from(end).expect("70_000 fits usize");
    let event = raw(&vec![b'A'; buf_len], start..end, 0..0, None)
        .expect("event_type length 30_000 is within MAX_EVENT_TYPE_LEN (65_535)");
    assert_eq!(event.event_type().len(), 30_000);
}

#[test]
fn envelope_rejects_event_type_range_past_buffer_end() {
    let err = raw(b"short", 0..100, 0..0, None).expect_err("event_type range past buffer must be rejected");
    assert!(matches!(err, EnvelopeError::RangeOutOfBounds { start: 0, end: 100, len: 5 }));
}

#[test]
fn envelope_rejects_metadata_range_past_buffer_end() {
    let err = raw(b"TYPEpayload", 0..4, 4..11, Some(11..100)).expect_err("metadata range past buffer must be rejected");
    assert!(matches!(err, EnvelopeError::RangeOutOfBounds { start: 11, end: 100, len: 11 }));
}

#[test]
fn envelope_rejects_inverted_metadata_range() {
    let (bad_start, bad_end) = (9u32, 5u32);
    let err = raw(b"TYPEpayload", 0..4, 4..11, Some(bad_start..bad_end)).expect_err("metadata start > end must be rejected");
    assert!(matches!(err, EnvelopeError::RangeOutOfBounds { start: 9, end: 5, .. }));
}

#[test]
fn envelope_ranges_are_independent_and_may_overlap() {
    let event = raw(b"TYPE", 0..4, 0..4, Some(0..4)).expect("overlapping ranges are structurally permitted");
    assert_eq!(event.event_type(), "TYPE");
    assert_eq!(event.payload(), b"TYPE");
    assert_eq!(event.metadata(), Some(b"TYPE".as_slice()));
}

#[test]
fn envelope_empty_payload_range_is_accepted_unlike_empty_metadata() {
    let event = raw(b"TYPE", 0..4, 4..4, None).expect("empty payload range is accepted");
    assert_eq!(event.payload(), b"");
    assert_eq!(event.payload_value().as_slice(), b"");
}

#[test]
fn envelope_metadata_absent_is_none_everywhere() {
    let event = build(v(1), gs(1), sv(1), b"TYPE", b"payload", None);
    assert!(event.metadata().is_none());
    assert!(event.metadata_bytes().is_none());
    assert!(event.metadata_value().is_none());
}

#[test]
fn envelope_metadata_present_threads_through_every_accessor() {
    let event = build(v(1), gs(1), sv(1), b"TYPE", b"payload", Some(b"META"));
    assert_eq!(event.metadata(), Some(b"META".as_slice()));
    assert_eq!(event.metadata_bytes().expect("some").as_slice(), b"META");
    assert_eq!(event.metadata_value().expect("some").as_slice(), b"META");
}

#[test]
fn envelope_empty_event_type_is_accepted() {
    let event = build(v(1), gs(1), sv(1), b"", b"payload", None);
    assert_eq!(event.event_type(), "");
    assert_eq!(event.event_type_value().as_str(), "");
    assert_eq!(event.payload(), b"payload");
}

#[test]
fn boundary_version_global_seq_and_schema_version_carried_verbatim() {
    let event = build(v(u64::MAX), gs(u64::MAX), sv(u32::MAX), b"TYPE", b"payload", None);
    assert_eq!(event.version().as_u64(), u64::MAX);
    assert_eq!(event.global_seq().as_u64(), u64::MAX);
    assert_eq!(event.schema_version(), u32::MAX);
    assert_eq!(event.schema_version_value().get(), u32::MAX);
}

#[test]
fn range_errors_come_in_check_order() {
    // Event type out of bounds is reported before a bad payload range.
    let err = raw(b"ab", 0..9, 5..1, None).expect_err("rejected");
    assert_eq!(err, EnvelopeError::RangeOutOfBounds { start: 0, end: 9, len: 2 });
    // A too-long event type is reported before empty metadata.
    let buf = vec![b'a'; MAX_EVENT_TYPE_LEN + 1];
    let end = u32::try_from(buf.len()).expect("fits");
    let err = raw(&buf, 0..end, 0..0, Some(0..0)).expect_err("rejected");
    assert!(matches!(err, EnvelopeError::EventTypeRangeTooLong { .. }));
}

#[test]
fn for_decode_wraps_event_type_and_payload_at_the_initial_positions() {
    let env = PersistedEnvelope::for_decode("Renamed", b"{\"x\":1}").expect("fits");
    assert_eq!(env.event_type(), "Renamed");
    assert_eq!(env.payload(), b"{\"x\":1}");
    assert_eq!(env.metadata(), None);
    assert_eq!(env.version(), Version::initial());
    assert_eq!(env.global_seq(), GlobalSeq::initial());
    assert_eq!(env.schema_version(), 1);
    let empty = PersistedEnvelope::for_decode("", b"").expect("empty fits");
    assert_eq!(empty.event_type(), "");
    assert!(empty.payload().is_empty());
}

#[test]
fn for_decode_rejects_oversize_event_type() {
    let long = "e".repeat(MAX_EVENT_TYPE_LEN + 1);
    let err = PersistedEnvelope::for_decode(&long, b"p").expect_err("too long");
    assert_eq!(
        err,
        ForDecodeError::Value(ValueError::EventTypeTooLong {
            actual: MAX_EVENT_TYPE_LEN + 1,
            max: MAX_EVENT_TYPE_LEN,
        })
    );
}
