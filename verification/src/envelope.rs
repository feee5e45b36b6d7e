//! Envelopes: [`PendingEnvelope`] on the write path (built through a
//! typestate builder rooted at [`pending_envelope`]) and
//! [`PersistedEnvelope`] on the read path (one row buffer plus validated
//! offsets for event type, payload and optional metadata).
use core::ops::Range;
use vstd::prelude::*;
use vstd::utf8::*;
use vstd::string::StringSliceAdditionalSpecFns;
use crate::value::{
    copy_bytes, event_type_ok, metadata_ok, str_from_utf8, sub_slice, EventType, Metadata, Payload,
    MAX_EVENT_TYPE_LEN, MAX_METADATA_LEN, MAX_PAYLOAD_LEN,
};
use crate::version::{GlobalSeq, SchemaVersion, ValueError, Version};
use crate::cbor::push_slice;

verus! {

/// Errors from envelope construction.
#[derive(Debug, Clone, Copy, PartialEq, Eq, Structural)]
pub enum EnvelopeError {
    /// A range ends past the buffer, or starts after it ends.
    RangeOutOfBounds { start: u32, end: u32, len: usize },
    /// The event-type bytes are not UTF-8.
    InvalidUtf8 { start: u32, end: u32 },
    /// The event-type range is longer than the cap.
    EventTypeRangeTooLong { actual: u32, max: usize },
    /// The metadata range is longer than the cap.
    MetadataRangeTooLong { actual: u32, max: usize },
    /// `Some(range)` with an empty range (absent metadata is `None`).
    MetadataRangeEmpty,
    /// A value newtype rejected its input.
    Value(ValueError),
}

/// Why a row frame could not be laid out.
#[derive(Debug, Clone, Copy, PartialEq, Eq, Structural)]
pub enum WireError {
    /// The frame is longer than its `u32` offsets can address.
    FrameLengthOverflow,
}

/// Errors from [`PersistedEnvelope::for_decode`]: a value newtype, the
/// frame layout or the envelope check refused the input.
#[derive(Debug, Clone, Copy, PartialEq, Eq, Structural)]
pub enum ForDecodeError {
    Value(ValueError),
    Wire(WireError),
    Envelope(EnvelopeError),
}

/// Widen a `u32` offset for indexing.
pub fn idx(n: u32) -> (r: usize)
    ensures
        r == n,
{
    n as usize
}

/// A `start..end` offset pair held inside an envelope.
#[derive(Debug, Clone, Copy, PartialEq, Eq, Structural)]
pub struct Span {
    pub start: u32,
    pub end: u32,
}

impl Span {
    /// The span as a `Range`.
    pub open spec fn range(self) -> Range<u32> {
        Range { start: self.start, end: self.end }
    }

    /// The span of a range.
    pub fn of(r: &Range<u32>) -> (s: Span)
        ensures
            s.range() == *r,
            s.start == r.start && s.end == r.end,
    {
        Span { start: r.start, end: r.end }
    }
}

/// The span of an optional range.
pub open spec fn opt_range(s: Option<Span>) -> Option<Range<u32>> {
    match s {
        Some(sp) => Some(sp.range()),
        None => None,
    }
}

pub fn opt_span(r: &Option<Range<u32>>) -> (s: Option<Span>)
    ensures
        opt_range(s) == *r,
{
    match r {
        Some(m) => Some(Span::of(m)),
        None => None,
    }
}

/// The check a range must pass against a buffer of `len` bytes.
pub open spec fn range_fits(r: Range<u32>, len: nat) -> bool {
    r.start <= r.end && r.end <= len
}

/// Bounds-check `range` against a buffer of `len` bytes.
pub fn check_range(range: &Range<u32>, len: usize) -> (r: Result<(), EnvelopeError>)
    ensures
        r is Ok <==> range_fits(*range, len as nat),
        r is Err ==> r == Err::<(), EnvelopeError>(
            EnvelopeError::RangeOutOfBounds { start: range.start, end: range.end, len },
        ),
{
    if idx(range.end) > len || range.start > range.end {
        return Err(EnvelopeError::RangeOutOfBounds { start: range.start, end: range.end, len });
    }
    Ok(())
}

/// The bytes a range selects.
pub open spec fn range_bytes(value: Seq<u8>, r: Range<u32>) -> Seq<u8> {
    value.subrange(r.start as int, r.end as int)
}

/// The length of a range that fits.
pub open spec fn range_len(r: Range<u32>) -> int {
    r.end - r.start
}

/// The outcome of validating a row: the first failing check in the order
/// the read path applies them, or `Ok`.
pub open spec fn row_check(
    value: Seq<u8>,
    et: Range<u32>,
    pl: Range<u32>,
    meta: Option<Range<u32>>,
) -> Result<(), EnvelopeError> {
    let len = value.len();
    if !range_fits(et, len) {
        Err(EnvelopeError::RangeOutOfBounds { start: et.start, end: et.end, len: len as usize })
    } else if !range_fits(pl, len) {
        Err(EnvelopeError::RangeOutOfBounds { start: pl.start, end: pl.end, len: len as usize })
    } else if meta is Some && !range_fits(meta->0, len) {
        Err(
            EnvelopeError::RangeOutOfBounds {
                start: meta->0.start,
                end: meta->0.end,
                len: len as usize,
            },
        )
    } else if range_len(et) > MAX_EVENT_TYPE_LEN {
        Err(
            EnvelopeError::EventTypeRangeTooLong {
                actual: range_len(et) as u32,
                max: MAX_EVENT_TYPE_LEN,
            },
        )
    } else if meta is Some && range_len(meta->0) == 0 {
        Err(EnvelopeError::MetadataRangeEmpty)
    } else if meta is Some && range_len(meta->0) > MAX_METADATA_LEN {
        Err(
            EnvelopeError::MetadataRangeTooLong {
                actual: range_len(meta->0) as u32,
                max: MAX_METADATA_LEN,
            },
        )
    } else if !valid_utf8(range_bytes(value, et)) {
        Err(EnvelopeError::InvalidUtf8 { start: et.start, end: et.end })
    } else {
        Ok(())
    }
}

/// Validates a row's ranges in the read path's order (shared by the
/// persisted and the portable envelope).
pub fn validate_row(
    value: &[u8],
    event_type_range: &Range<u32>,
    payload_range: &Range<u32>,
    metadata_range: &Option<Range<u32>>,
) -> (r: Result<(), EnvelopeError>)
    ensures
        r == row_check(value@, *event_type_range, *payload_range, *metadata_range),
{
    let len = value.len();
    check_range(event_type_range, len)?;
    check_range(payload_range, len)?;
    if let Some(m) = metadata_range {
        check_range(m, len)?;
    }
    let et_range_len = event_type_range.end - event_type_range.start;
    if idx(et_range_len) > MAX_EVENT_TYPE_LEN {
        return Err(
            EnvelopeError::EventTypeRangeTooLong { actual: et_range_len, max: MAX_EVENT_TYPE_LEN },
        );
    }
    if let Some(m) = metadata_range {
        let meta_range_len = m.end - m.start;
        if meta_range_len == 0 {
            return Err(EnvelopeError::MetadataRangeEmpty);
        }
        if idx(meta_range_len) > MAX_METADATA_LEN {
            return Err(
                EnvelopeError::MetadataRangeTooLong { actual: meta_range_len, max: MAX_METADATA_LEN },
            );
        }
    }
    let et = sub_slice(value, idx(event_type_range.start), idx(event_type_range.end));
    if str_from_utf8(et).is_none() {
        return Err(
            EnvelopeError::InvalidUtf8 { start: event_type_range.start, end: event_type_range.end },
        );
    }
    Ok(())
}

// =============================================================================
// PendingEnvelope — write path
// =============================================================================

/// Event envelope for the write path. Holds validated value newtypes, so
/// the wire encoder can skip re-validation.
#[derive(Debug)]
pub struct PendingEnvelope {
    version: Version,
    event_type: EventType,
    schema_version: SchemaVersion,
    payload: Payload,
    metadata: Option<Metadata>,
}

impl PendingEnvelope {
    pub closed spec fn spec_version(&self) -> Version {
        self.version
    }

    pub closed spec fn spec_event_type(&self) -> Seq<u8> {
        self.event_type@
    }

    pub closed spec fn spec_schema_version(&self) -> SchemaVersion {
        self.schema_version
    }

    pub closed spec fn spec_payload(&self) -> Seq<u8> {
        self.payload@
    }

    pub closed spec fn spec_metadata(&self) -> Option<Seq<u8>> {
        match self.metadata {
            Some(m) => Some(m@),
            None => None,
        }
    }

    /// The value fields hold what their newtypes promise (the invariant
    /// every pending envelope keeps).
    #[verifier::type_invariant]
    closed spec fn values_ok(&self) -> bool {
        &&& valid_utf8(self.event_type@)
        &&& self.payload.wf()
        &&& (self.metadata matches Some(m) ==> m.wf())
    }

    /// Every field satisfies its value invariant.
    pub closed spec fn wf(&self) -> bool {
        &&& self.version.wf()
        &&& self.event_type.wf()
        &&& self.schema_version.wf()
        &&& self.payload.wf()
        &&& (self.metadata matches Some(m) ==> m.wf())
    }

    /// The facts that `wf` stands for, in terms of the views.
    pub proof fn lemma_wf(&self)
        requires
            self.wf(),
        ensures
            self.spec_version().wf(),
            self.spec_schema_version().wf(),
            event_type_ok(self.spec_event_type()),
            self.spec_payload().len() <= MAX_PAYLOAD_LEN,
            self.spec_metadata() matches Some(m) ==> metadata_ok(m),
    {
    }

    /// Assemble from validated parts.
    pub fn from_parts(
        version: Version,
        event_type: EventType,
        schema_version: SchemaVersion,
        payload: Payload,
        metadata: Option<Metadata>,
    ) -> (r: PendingEnvelope)
        requires
            valid_utf8(event_type@),
            payload.wf(),
            metadata matches Some(m) ==> m.wf(),
        ensures
            r.spec_version() == version,
            r.spec_event_type() == event_type@,
            r.spec_schema_version() == schema_version,
            r.spec_payload() == payload@,
            r.spec_metadata() == (match metadata {
                Some(m) => Some(m@),
                None => None::<Seq<u8>>,
            }),
            version.wf() && event_type.wf() && schema_version.wf() && payload.wf() && (
            metadata matches Some(m) ==> m.wf()) ==> r.wf(),
    {
        PendingEnvelope { version, event_type, schema_version, payload, metadata }
    }

    pub fn version(&self) -> (r: Version)
        ensures
            r == self.spec_version(),
    {
        self.version
    }

    /// The event type as text.
    pub fn event_type(&self) -> (r: &str)
        ensures
            r.spec_bytes() == self.spec_event_type(),
    {
        proof {
            use_type_invariant(self);
        }
        self.event_type.as_str()
    }

    /// The event type as its value newtype.
    pub fn event_type_value(&self) -> (r: EventType)
        ensures
            r@ == self.spec_event_type(),
            valid_utf8(r@),
            event_type_ok(self.spec_event_type()) ==> r.wf(),
    {
        proof {
            use_type_invariant(self);
        }
        EventType::from_validated(copy_bytes(self.event_type.as_bytes()))
    }

    pub fn payload(&self) -> (r: &[u8])
        ensures
            r@ == self.spec_payload(),
    {
        self.payload.as_slice()
    }

    /// The payload, owned.
    pub fn payload_bytes(&self) -> (r: Vec<u8>)
        ensures
            r@ == self.spec_payload(),
    {
        copy_bytes(self.payload.as_slice())
    }

    /// The payload as its value newtype.
    pub fn payload_value(&self) -> (r: Payload)
        ensures
            r@ == self.spec_payload(),
            r.wf(),
    {
        proof {
            use_type_invariant(self);
        }
        Payload::from_validated(copy_bytes(self.payload.as_slice()))
    }

    pub fn metadata(&self) -> (r: Option<&[u8]>)
        ensures
            match r {
                Some(b) => self.spec_metadata() == Some(b@),
                None => self.spec_metadata() is None,
            },
    {
        match &self.metadata {
            Some(m) => Some(m.as_slice()),
            None => None,
        }
    }

    /// The metadata, owned.
    pub fn metadata_bytes(&self) -> (r: Option<Vec<u8>>)
        ensures
            match r {
                Some(b) => self.spec_metadata() == Some(b@),
                None => self.spec_metadata() is None,
            },
    {
        match &self.metadata {
            Some(m) => Some(copy_bytes(m.as_slice())),
            None => None,
        }
    }

    /// The metadata as its value newtype.
    pub fn metadata_value(&self) -> (r: Option<Metadata>)
        ensures
            match r {
                Some(m) => self.spec_metadata() == Some(m@) && m.wf(),
                None => self.spec_metadata() is None,
            },
    {
        proof {
            use_type_invariant(self);
        }
        match &self.metadata {
            Some(m) => Some(Metadata::from_validated(copy_bytes(m.as_slice()))),
            None => None,
        }
    }

    /// The raw schema version (always `> 0`).
    pub fn schema_version(&self) -> (r: u32)
        ensures
            r == self.spec_schema_version().spec_u32(),
    {
        self.schema_version.get()
    }

    pub fn schema_version_value(&self) -> (r: SchemaVersion)
        ensures
            r == self.spec_schema_version(),
    {
        self.schema_version
    }

    /// Rebuild a write-path envelope from a read-path one, dropping the
    /// store-local global sequence.
    pub fn from_persisted(persisted: &PersistedEnvelope) -> (r: PendingEnvelope)
        requires
            persisted.wf(),
        ensures
            r.wf(),
            r.spec_version() == persisted.spec_version(),
            r.spec_event_type() == persisted.event_type_view(),
            r.spec_schema_version() == persisted.spec_schema_version(),
            r.spec_payload() == persisted.payload_view(),
            r.spec_metadata() == persisted.metadata_view(),
    {
        PendingEnvelope {
            version: persisted.version(),
            event_type: persisted.event_type_value(),
            schema_version: persisted.schema_version_value(),
            payload: persisted.payload_value(),
            metadata: persisted.metadata_value(),
        }
    }
}

impl Clone for PendingEnvelope {
    /// A copy with the same fields.
    fn clone(&self) -> (r: Self)
        ensures
            r.spec_version() == self.spec_version(),
            r.spec_event_type() == self.spec_event_type(),
            r.spec_schema_version() == self.spec_schema_version(),
            r.spec_payload() == self.spec_payload(),
            r.spec_metadata() == self.spec_metadata(),
            self.wf() ==> r.wf(),
    {
        PendingEnvelope {
            version: self.version,
            event_type: self.event_type_value(),
            schema_version: self.schema_version,
            payload: self.payload_value(),
            metadata: self.metadata_value(),
        }
    }
}

/// Builder step 1: has a version, needs an event type.
#[derive(Debug)]
pub struct WithVersion {
    version: Version,
}

/// Builder step 2: has version and event type, needs a payload.
#[derive(Debug)]
pub struct WithEventType {
    version: Version,
    event_type: EventType,
}

impl WithEventType {
    #[verifier::type_invariant]
    closed spec fn event_type_ok(&self) -> bool {
        valid_utf8(self.event_type@)
    }
}

/// Builder step 3: has every core field; finish with `build` or
/// `with_metadata`.
#[derive(Debug)]
pub struct WithPayload {
    version: Version,
    event_type: EventType,
    payload: Payload,
    schema_version: SchemaVersion,
}

impl WithPayload {
    #[verifier::type_invariant]
    closed spec fn values_ok(&self) -> bool {
        valid_utf8(self.event_type@) && self.payload.wf()
    }
}

/// Start building a [`PendingEnvelope`].
pub fn pending_envelope(version: Version) -> (r: WithVersion)
    ensures
        r.spec_version() == version,
{
    WithVersion { version }
}

impl WithVersion {
    pub closed spec fn spec_version(&self) -> Version {
        self.version
    }

    /// Set the event type from a string literal, taken as it is.
    pub fn event_type(self, event_type: &'static str) -> (r: WithEventType)
        ensures
            r.spec_version() == self.spec_version(),
            r.spec_event_type() == event_type.spec_bytes(),
            event_type.spec_bytes().len() <= MAX_EVENT_TYPE_LEN ==> r.event_type_wf(),
    {
        WithEventType { version: self.version, event_type: EventType::from_static_str(event_type) }
    }

    /// Set the event type from arbitrary bytes: validates UTF-8 and the cap.
    pub fn event_type_bytes(self, bytes: Vec<u8>) -> (r: Result<WithEventType, EnvelopeError>)
        ensures
            r is Ok <==> event_type_ok(bytes@),
            r matches Ok(w) ==> w.spec_version() == self.spec_version() && w.spec_event_type()
                == bytes@ && w.event_type_wf(),
            !valid_utf8(bytes@) ==> r == Err::<WithEventType, EnvelopeError>(
                EnvelopeError::Value(ValueError::InvalidUtf8),
            ),
            valid_utf8(bytes@) && bytes@.len() > MAX_EVENT_TYPE_LEN ==> r == Err::<
                WithEventType,
                EnvelopeError,
            >(
                EnvelopeError::Value(
                    ValueError::EventTypeTooLong {
                        actual: bytes@.len() as usize,
                        max: MAX_EVENT_TYPE_LEN,
                    },
                ),
            ),
    {
        match EventType::from_bytes(bytes) {
            Ok(event_type) => Ok(WithEventType { version: self.version, event_type }),
            Err(e) => Err(EnvelopeError::Value(e)),
        }
    }
}

impl WithEventType {
    pub closed spec fn spec_version(&self) -> Version {
        self.version
    }

    pub closed spec fn spec_event_type(&self) -> Seq<u8> {
        self.event_type@
    }

    pub closed spec fn event_type_wf(&self) -> bool {
        self.event_type.wf()
    }

    /// Set the payload; fails only on the payload cap. The schema version
    /// starts at 1.
    pub fn payload(self, payload: Vec<u8>) -> (r: Result<WithPayload, EnvelopeError>)
        ensures
            r is Ok <==> payload@.len() <= MAX_PAYLOAD_LEN,
            r matches Ok(w) ==> w.spec_version() == self.spec_version() && w.spec_event_type()
                == self.spec_event_type() && w.spec_payload() == payload@
                && w.spec_schema_version() == SchemaVersion::of(1) && (self.event_type_wf()
                ==> w.parts_wf()),
            payload@.len() > MAX_PAYLOAD_LEN ==> r == Err::<WithPayload, EnvelopeError>(
                EnvelopeError::Value(
                    ValueError::PayloadTooLong {
                        actual: payload@.len() as usize,
                        max: MAX_PAYLOAD_LEN,
                    },
                ),
            ),
    {
        proof {
            use_type_invariant(&self);
        }
        match Payload::from_bytes(payload) {
            Ok(p) => Ok(
                WithPayload {
                    version: self.version,
                    event_type: self.event_type,
                    payload: p,
                    schema_version: SchemaVersion::initial(),
                },
            ),
            Err(e) => Err(EnvelopeError::Value(e)),
        }
    }
}

impl WithPayload {
    pub closed spec fn spec_version(&self) -> Version {
        self.version
    }

    pub closed spec fn spec_event_type(&self) -> Seq<u8> {
        self.event_type@
    }

    pub closed spec fn spec_payload(&self) -> Seq<u8> {
        self.payload@
    }

    pub closed spec fn spec_schema_version(&self) -> SchemaVersion {
        self.schema_version
    }

    pub closed spec fn parts_wf(&self) -> bool {
        self.event_type.wf() && self.payload.wf() && self.schema_version.wf()
    }

    /// Override the schema version (default 1).
    pub fn schema_version(self, schema_version: SchemaVersion) -> (r: WithPayload)
        ensures
            r.spec_version() == self.spec_version(),
            r.spec_event_type() == self.spec_event_type(),
            r.spec_payload() == self.spec_payload(),
            r.spec_schema_version() == schema_version,
            self.parts_wf() && schema_version.wf() ==> r.parts_wf(),
    {
        proof {
            use_type_invariant(&self);
        }
        WithPayload {
            version: self.version,
            event_type: self.event_type,
            payload: self.payload,
            schema_version,
        }
    }

    /// Finish without metadata.
    pub fn build(self) -> (r: PendingEnvelope)
        ensures
            r.spec_version() == self.spec_version(),
            r.spec_event_type() == self.spec_event_type(),
            r.spec_payload() == self.spec_payload(),
            r.spec_schema_version() == self.spec_schema_version(),
            r.spec_metadata() is None,
            self.parts_wf() && self.spec_version().wf() ==> r.wf(),
    {
        proof {
            use_type_invariant(&self);
        }
        PendingEnvelope {
            version: self.version,
            event_type: self.event_type,
            schema_version: self.schema_version,
            payload: self.payload,
            metadata: None,
        }
    }

    /// Finish with metadata; fails when it is empty or over the cap.
    pub fn with_metadata(self, metadata: Vec<u8>) -> (r: Result<PendingEnvelope, EnvelopeError>)
        ensures
            r is Ok <==> metadata_ok(metadata@),
            r matches Ok(e) ==> e.spec_version() == self.spec_version() && e.spec_event_type()
                == self.spec_event_type() && e.spec_payload() == self.spec_payload()
                && e.spec_schema_version() == self.spec_schema_version() && e.spec_metadata()
                == Some(metadata@) && (self.parts_wf() && self.spec_version().wf() ==> e.wf()),
            metadata@.len() == 0 ==> r == Err::<PendingEnvelope, EnvelopeError>(
                EnvelopeError::Value(ValueError::EmptyMetadata),
            ),
            metadata@.len() > MAX_METADATA_LEN ==> r == Err::<PendingEnvelope, EnvelopeError>(
                EnvelopeError::Value(
                    ValueError::MetadataTooLong {
                        actual: metadata@.len() as usize,
                        max: MAX_METADATA_LEN,
                    },
                ),
            ),
    {
        proof {
            use_type_invariant(&self);
        }
        match Metadata::from_bytes(metadata) {
            Ok(m) => Ok(
                PendingEnvelope {
                    version: self.version,
                    event_type: self.event_type,
                    schema_version: self.schema_version,
                    payload: self.payload,
                    metadata: Some(m),
                },
            ),
            Err(e) => Err(EnvelopeError::Value(e)),
        }
    }
}

// =============================================================================
// PersistedEnvelope — read path
// =============================================================================

/// Event envelope for the read path: the whole row as one buffer plus
/// offsets for event type, payload and optional metadata.
#[derive(Debug)]
pub struct PersistedEnvelope {
    version: Version,
    global_seq: GlobalSeq,
    schema_version: SchemaVersion,
    value: Vec<u8>,
    event_type_range: Span,
    payload_range: Span,
    metadata_range: Option<Span>,
}

impl Clone for PersistedEnvelope {
    /// A copy with the same fields and row bytes.
    fn clone(&self) -> (r: Self)
        ensures
            r.spec_version() == self.spec_version(),
            r.spec_global_seq() == self.spec_global_seq(),
            r.spec_schema_version() == self.spec_schema_version(),
            r.value_view() == self.value_view(),
            r.event_type_view() == self.event_type_view(),
            r.payload_view() == self.payload_view(),
            r.metadata_view() == self.metadata_view(),
    {
        proof {
            use_type_invariant(self);
        }
        PersistedEnvelope {
            version: self.version,
            global_seq: self.global_seq,
            schema_version: self.schema_version,
            value: copy_bytes(self.value.as_slice()),
            event_type_range: self.event_type_range,
            payload_range: self.payload_range,
            metadata_range: self.metadata_range,
        }
    }
}

impl PersistedEnvelope {
    pub closed spec fn spec_version(&self) -> Version {
        self.version
    }

    pub closed spec fn spec_global_seq(&self) -> GlobalSeq {
        self.global_seq
    }

    pub closed spec fn spec_schema_version(&self) -> SchemaVersion {
        self.schema_version
    }

    /// The row buffer.
    pub closed spec fn value_view(&self) -> Seq<u8> {
        self.value@
    }

    pub closed spec fn event_type_view(&self) -> Seq<u8> {
        range_bytes(self.value@, self.event_type_range.range())
    }

    pub closed spec fn payload_view(&self) -> Seq<u8> {
        range_bytes(self.value@, self.payload_range.range())
    }

    pub closed spec fn metadata_view(&self) -> Option<Seq<u8>> {
        match self.metadata_range {
            Some(r) => Some(range_bytes(self.value@, r.range())),
            None => None,
        }
    }

    /// What `try_new` established.
    #[verifier::type_invariant]
    pub closed spec fn wf(&self) -> bool {
        &&& self.version.wf()
        &&& self.global_seq.wf()
        &&& self.schema_version.wf()
        &&& row_check(
            self.value@,
            self.event_type_range.range(),
            self.payload_range.range(),
            opt_range(self.metadata_range),
        ) is Ok
    }

    /// The facts that `wf` stands for, in terms of the views.
    pub proof fn lemma_wf(&self)
        requires
            self.wf(),
        ensures
            self.spec_version().wf(),
            self.spec_global_seq().wf(),
            self.spec_schema_version().wf(),
            event_type_ok(self.event_type_view()),
            self.payload_view().len() <= MAX_PAYLOAD_LEN,
            self.payload_view().len() <= self.value_view().len(),
            self.metadata_view() matches Some(m) ==> metadata_ok(m),
    {
    }

    /// Construct from decoded row data, validating ranges, caps and UTF-8.
    pub fn try_new(
        version: Version,
        global_seq: GlobalSeq,
        value: Vec<u8>,
        schema_version: SchemaVersion,
        event_type_range: Range<u32>,
        payload_range: Range<u32>,
        metadata_range: Option<Range<u32>>,
    ) -> (r: Result<PersistedEnvelope, EnvelopeError>)
        requires
            version.wf(),
            global_seq.wf(),
            schema_version.wf(),
        ensures
            match row_check(value@, event_type_range, payload_range, metadata_range) {
                Ok(_) => r matches Ok(e) && e.wf() && e.spec_version() == version
                    && e.spec_global_seq() == global_seq && e.spec_schema_version()
                    == schema_version && e.value_view() == value@ && e.event_type_view()
                    == range_bytes(value@, event_type_range) && e.payload_view() == range_bytes(
                    value@,
                    payload_range,
                ) && e.metadata_view() == (match metadata_range {
                    Some(m) => Some(range_bytes(value@, m)),
                    None => None::<Seq<u8>>,
                }),
                Err(err) => r == Err::<PersistedEnvelope, EnvelopeError>(err),
            },
    {
        validate_row(value.as_slice(), &event_type_range, &payload_range, &metadata_range)?;
        Ok(
            PersistedEnvelope {
                version,
                global_seq,
                schema_version,
                value,
                event_type_range: Span::of(&event_type_range),
                payload_range: Span::of(&payload_range),
                metadata_range: opt_span(&metadata_range),
            },
        )
    }

    /// A synthetic envelope around `event_type` and `payload`, for handing
    /// bytes to a decoder outside the read path (snapshots, upcaster
    /// output). It reports version, global sequence and schema version 1
    /// and carries no metadata.
    pub fn for_decode(event_type: &str, payload: &[u8]) -> (r: Result<PersistedEnvelope, ForDecodeError>)
        ensures
            event_type.spec_bytes().len() > MAX_EVENT_TYPE_LEN ==> r == Err::<
                PersistedEnvelope,
                ForDecodeError,
            >(
                ForDecodeError::Value(
                    ValueError::EventTypeTooLong {
                        actual: event_type.spec_bytes().len() as usize,
                        max: MAX_EVENT_TYPE_LEN,
                    },
                ),
            ),
            event_type.spec_bytes().len() <= MAX_EVENT_TYPE_LEN && payload@.len() > MAX_PAYLOAD_LEN
                ==> r == Err::<PersistedEnvelope, ForDecodeError>(
                ForDecodeError::Value(
                    ValueError::PayloadTooLong {
                        actual: payload@.len() as usize,
                        max: MAX_PAYLOAD_LEN,
                    },
                ),
            ),
            event_type.spec_bytes().len() <= MAX_EVENT_TYPE_LEN && payload@.len() <= MAX_PAYLOAD_LEN
                && event_type.spec_bytes().len() + payload@.len() > u32::MAX ==> r == Err::<
                PersistedEnvelope,
                ForDecodeError,
            >(ForDecodeError::Wire(WireError::FrameLengthOverflow)),
            event_type.spec_bytes().len() <= MAX_EVENT_TYPE_LEN && event_type.spec_bytes().len()
                + payload@.len() <= u32::MAX ==> (r matches Ok(e) && e.wf() && e.spec_version()
                == Version::of(1) && e.spec_global_seq() == GlobalSeq::of(1)
                && e.spec_schema_version() == SchemaVersion::of(1) && e.event_type_view()
                == event_type.spec_bytes() && e.payload_view() == payload@ && e.metadata_view()
                is None),
    {
        let et = match EventType::from_str_checked(event_type) {
            Ok(t) => t,
            Err(e) => return Err(ForDecodeError::Value(e)),
        };
        let pl = match Payload::from_bytes(copy_bytes(payload)) {
            Ok(p) => p,
            Err(e) => return Err(ForDecodeError::Value(e)),
        };
        let etl = et.len();
        let pll = pl.as_slice().len();
        if etl as u64 + pll as u64 > u32::MAX as u64 {
            return Err(ForDecodeError::Wire(WireError::FrameLengthOverflow));
        }
        let mut value = copy_bytes(et.as_bytes());
        push_slice(&mut value, pl.as_slice());
        let et_end = etl as u32;
        let pl_end = (etl + pll) as u32;
        proof {
            encode_utf8_valid_utf8(event_type@);
            assert(range_bytes(value@, 0..et_end) =~= event_type.spec_bytes());
            assert(range_bytes(value@, et_end..pl_end) =~= payload@);
        }
        match PersistedEnvelope::try_new(
            Version::initial(),
            GlobalSeq::initial(),
            value,
            SchemaVersion::initial(),
            0..et_end,
            et_end..pl_end,
            None,
        ) {
            Ok(e) => Ok(e),
            Err(e) => Err(ForDecodeError::Envelope(e)),
        }
    }

    pub fn version(&self) -> (r: Version)
        ensures
            r == self.spec_version(),
    {
        self.version
    }

    pub fn global_seq(&self) -> (r: GlobalSeq)
        ensures
            r == self.spec_global_seq(),
    {
        self.global_seq
    }

    /// The raw schema version (always `> 0`).
    pub fn schema_version(&self) -> (r: u32)
        ensures
            r == self.spec_schema_version().spec_u32(),
    {
        self.schema_version.get()
    }

    pub fn schema_version_value(&self) -> (r: SchemaVersion)
        ensures
            r == self.spec_schema_version(),
    {
        self.schema_version
    }

    /// The schema version widened to a [`Version`].
    pub fn schema_version_as_version(&self) -> (r: Version)
        ensures
            r == Version::of(self.spec_schema_version().spec_u32() as u64),
    {
        Version::from_schema(self.schema_version)
    }

    /// The event type as text (UTF-8 was checked at construction).
    pub fn event_type(&self) -> (r: &str)
        ensures
            r.spec_bytes() == self.event_type_view(),
    {
        proof {
            use_type_invariant(self);
        }
        let b = sub_slice(
            self.value.as_slice(),
            idx(self.event_type_range.start),
            idx(self.event_type_range.end),
        );
        match str_from_utf8(b) {
            Some(s) => s,
            None => "",
        }
    }

    /// The event type bytes, owned.
    pub fn event_type_bytes(&self) -> (r: Vec<u8>)
        ensures
            r@ == self.event_type_view(),
    {
        proof {
            use_type_invariant(self);
        }
        copy_bytes(
            sub_slice(
                self.value.as_slice(),
                idx(self.event_type_range.start),
                idx(self.event_type_range.end),
            ),
        )
    }

    pub fn payload(&self) -> (r: &[u8])
        ensures
            r@ == self.payload_view(),
    {
        proof {
            use_type_invariant(self);
        }
        sub_slice(
            self.value.as_slice(),
            idx(self.payload_range.start),
            idx(self.payload_range.end),
        )
    }

    /// The payload, owned.
    pub fn payload_bytes(&self) -> (r: Vec<u8>)
        ensures
            r@ == self.payload_view(),
    {
        proof {
            use_type_invariant(self);
        }
        copy_bytes(self.payload())
    }

    pub fn metadata(&self) -> (r: Option<&[u8]>)
        ensures
            match r {
                Some(b) => self.metadata_view() == Some(b@),
                None => self.metadata_view() is None,
            },
    {
        proof {
            use_type_invariant(self);
        }
        match &self.metadata_range {
            Some(m) => Some(sub_slice(self.value.as_slice(), idx(m.start), idx(m.end))),
            None => None,
        }
    }

    /// The metadata, owned.
    pub fn metadata_bytes(&self) -> (r: Option<Vec<u8>>)
        ensures
            match r {
                Some(b) => self.metadata_view() == Some(b@),
                None => self.metadata_view() is None,
            },
    {
        proof {
            use_type_invariant(self);
        }
        match self.metadata() {
            Some(b) => Some(copy_bytes(b)),
            None => None,
        }
    }

    /// The event type as its value newtype.
    pub fn event_type_value(&self) -> (r: EventType)
        ensures
            r@ == self.event_type_view(),
            r.wf(),
    {
        proof {
            use_type_invariant(self);
        }
        EventType::from_validated(self.event_type_bytes())
    }

    /// The payload as its value newtype.
    pub fn payload_value(&self) -> (r: Payload)
        ensures
            r@ == self.payload_view(),
            r.wf(),
    {
        proof {
            use_type_invariant(self);
        }
        Payload::from_validated(self.payload_bytes())
    }

    /// The metadata as its value newtype (`None` when absent).
    pub fn metadata_value(&self) -> (r: Option<Metadata>)
        ensures
            match r {
                Some(m) => self.metadata_view() == Some(m@) && m.wf(),
                None => self.metadata_view() is None,
            },
    {
        proof {
            use_type_invariant(self);
        }
        match self.metadata_bytes() {
            Some(b) => Some(Metadata::from_validated(b)),
            None => None,
        }
    }
}

} // verus!
