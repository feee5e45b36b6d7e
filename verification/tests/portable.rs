use std::ops::Range;

use nexus_store::envelope::EnvelopeError;
use nexus_store::portable::PortableEvent;
use nexus_store::version::{SchemaVersion, Version};

fn v(n: u64) -> Version {
    Version::new(n).expect("test version must be nonzero")
}

fn sv(n: u32) -> SchemaVersion {
    SchemaVersion::from_u32(n).expect("test schema_version must be nonzero")
}

fn assemble(
    event_type: &[u8],
    payload: &[u8],
    metadata: Option<&[u8]>,
) -> (Vec<u8>, Range<u32>, Range<u32>, Option<Range<u32>>) {
    let mut buf = Vec::new();
    buf.extend_from_slice(event_type);
    buf.extend_from_slice(payload);
    if let Some(m) = metadata {
        buf.extend_from_slice(m);
    }
    let et_end = u32::try_from(event_type.len()).expect("event_type len fits u32");
    let pl_end = et_end + u32::try_from(payload.len()).expect("payload len fits u32");
    let meta_range = metadata.map(|m| {
        let end = pl_end + u32::try_from(m.len()).expect("metadata len fits u32");
        pl_end..end
    });
    (buf, 0..et_end, et_end..pl_end, meta_range)
}

fn build(
    stream_id: &[u8],
    version: Version,
    schema: SchemaVersion,
    event_type: &[u8],
    payload: &[u8],
    metadata: Option<&[u8]>,
) -> PortableEvent {
    let (value, et, pl, meta) = assemble(event_type, payload, metadata);
    PortableEvent::try_new(stream_id.to_vec(), version, value, schema, et, pl, meta)
        .expect("components form a valid PortableEvent")
}

fn raw(value: &[u8], et: Range<u32>, pl: Range<u32>, meta: Option<Range<u32>>) -> Result<PortableEvent, EnvelopeError> {
    PortableEvent::try_new(b"sid".to_vec(), Version::initial(), value.to_vec(), SchemaVersion::initial(), et, pl, meta)
}

#[test]
fn portable_repeated_accessor_calls_are_consistent() {
    let event = build(b"sid", v(9), sv(4), b"TYPE", b"payload", Some(b"meta"));
    assert_eq!(event.event_type(), event.event_type());
    assert_eq!(event.payload(), event.payload());
    assert_eq!(event.metadata(), event.metadata());
    assert_eq!(event.stream_id(), event.stream_id());
    assert_eq!(event.event_type().as_bytes(), event.event_type_bytes().as_slice());
    assert_eq!(event.payload(), event.payload_bytes().as_slice());
    assert_eq!(event.metadata(), event.metadata_bytes().as_deref());
    assert_eq!(event.stream_id(), event.stream_id_bytes().as_slice());
    assert_eq!(event.event_type(), event.event_type_value().as_str());
    assert_eq!(event.payload(), event.payload_value().as_slice());
    assert_eq!(event.metadata(), event.metadata_value().as_ref().map(|m| m.as_slice()));
    assert_eq!(event.version(), v(9));
    assert_eq!(event.schema_version(), 4);
    assert_eq!(event.schema_version_value(), sv(4));
}

#[test]
fn portable_clone_is_field_for_field_equal_view() {
    let original = build(b"order-1", v(42), sv(7), b"OrderPlaced", b"the-payload", Some(b"the-meta"));
    let cloned = original.clone();
    assert_eq!(cloned.stream_id(), original.stream_id());
    assert_eq!(cloned.version(), original.version());
    assert_eq!(cloned.schema_version(), original.schema_version());
    assert_eq!(cloned.schema_version_value(), original.schema_version_value());
    assert_eq!(cloned.event_type(), original.event_type());
    assert_eq!(cloned.payload(), original.payload());
    assert_eq!(cloned.metadata(), original.metadata());
}

#[test]
fn rejects_payload_range_past_buffer_end() {
    let err = raw(b"TYPEpay", 0..4, 4..100, None).expect_err("payload range past buffer must be rejected");
    assert!(matches!(err, EnvelopeError::RangeOutOfBounds { start: 4, end: 100, len: 7 }));
}

#[test]
fn portable_rejects_inverted_range_start_after_end() {
    let err = raw(b"TYPEpayload", 0..4, 7..2, None).expect_err("start > end must be rejected");
    assert!(matches!(err, EnvelopeError::RangeOutOfBounds { start: 7, end: 2, .. }));
}

#[test]
fn rejects_invalid_utf8_event_type() {
    let err = raw(&[0xFFu8, 0xFE, b'p'], 0..2, 2..3, None).expect_err("non-UTF-8 event_type must be rejected");
    assert!(matches!(err, EnvelopeError::InvalidUtf8 { start: 0, end: 2 }));
}

#[test]
fn rejects_event_type_range_longer_than_cap() {
    let len = nexus_store::value::MAX_EVENT_TYPE_LEN + 1;
    let buf = vec![b'A'; len];
    let end = u32::try_from(len).expect("fits");
    let err = raw(&buf, 0..end, end..end, None).expect_err("too long");
    assert!(matches!(
        err,
        EnvelopeError::EventTypeRangeTooLong { actual, max }
            if actual == end && max == nexus_store::value::MAX_EVENT_TYPE_LEN
    ));
}

#[test]
fn rejects_empty_metadata_range_with_some() {
    let r = raw(b"TYPEpayload", 0..4, 4..11, Some(4..4));
    assert!(matches!(r, Err(EnvelopeError::MetadataRangeEmpty)));
}

#[test]
fn portable_rejects_event_type_range_past_buffer_end() {
    let err = raw(b"short", 0..100, 0..0, None).expect_err("rejected");
    assert!(matches!(err, EnvelopeError::RangeOutOfBounds { start: 0, end: 100, len: 5 }));
}

#[test]
fn portable_rejects_metadata_range_past_buffer_end() {
    let err = raw(b"TYPEpayload", 0..4, 4..11, Some(11..100)).expect_err("rejected");
    assert!(matches!(err, EnvelopeError::RangeOutOfBounds { start: 11, end: 100, len: 11 }));
}

#[test]
fn portable_rejects_inverted_metadata_range() {
    let err = raw(b"TYPEpayload", 0..4, 4..11, Some(9..5)).expect_err("rejected");
    assert!(matches!(err, EnvelopeError::RangeOutOfBounds { start: 9, end: 5, .. }));
}

#[test]
fn portable_ranges_are_independent_and_may_overlap() {
    let event = raw(b"TYPE", 0..4, 0..4, Some(0..4)).expect("overlap permitted");
    assert_eq!(event.event_type(), "TYPE");
    assert_eq!(event.payload(), b"TYPE");
    assert_eq!(event.metadata(), Some(b"TYPE".as_slice()));
}

#[test]
fn portable_empty_payload_range_is_accepted_unlike_empty_metadata() {
    let event = raw(b"TYPE", 0..4, 4..4, None).expect("empty payload accepted");
    assert_eq!(event.payload(), b"");
    assert_eq!(event.payload_value().as_slice(), b"");
}

#[test]
fn stream_id_carried_verbatim_including_empty() {
    let event = build(b"task-123", v(1), sv(1), b"E", b"", None);
    assert_eq!(event.stream_id(), b"task-123");
    assert_eq!(event.stream_id_bytes().as_slice(), b"task-123");
    let empty = build(b"", v(1), sv(1), b"E", b"", None);
    assert_eq!(empty.stream_id(), b"");
    assert!(empty.stream_id_bytes().is_empty());
}

#[test]
fn portable_event_exposes_no_global_seq() {
    let event = build(b"sid", v(5), sv(1), b"E", b"p", None);
    assert_eq!(event.version(), v(5));
}

#[test]
fn portable_metadata_absent_is_none_everywhere() {
    let event = build(b"sid", v(1), sv(1), b"TYPE", b"payload", None);
    assert!(event.metadata().is_none());
    assert!(event.metadata_bytes().is_none());
    assert!(event.metadata_value().is_none());
}

#[test]
fn portable_metadata_present_threads_through_every_accessor() {
    let event = build(b"sid", v(1), sv(1), b"TYPE", b"payload", Some(b"META"));
    assert_eq!(event.metadata(), Some(b"META".as_slice()));
    assert_eq!(event.metadata_bytes().expect("some").as_slice(), b"META");
    assert_eq!(event.metadata_value().expect("some").as_slice(), b"META");
}

#[test]
fn portable_empty_event_type_is_accepted() {
    let event = build(b"sid", v(1), sv(1), b"", b"payload", None);
    assert_eq!(event.event_type(), "");
    assert_eq!(event.event_type_value().as_str(), "");
    assert_eq!(event.payload(), b"payload");
}

#[test]
fn boundary_version_and_schema_version_carried_verbatim() {
    let event = build(b"sid", v(u64::MAX), sv(u32::MAX), b"TYPE", b"payload", None);
    assert_eq!(event.version().as_u64(), u64::MAX);
    assert_eq!(event.schema_version(), u32::MAX);
    assert_eq!(event.schema_version_value().get(), u32::MAX);
}
