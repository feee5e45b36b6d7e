//! Transport view of a persisted event — the unit of export/import. Same
//! row representation as [`PersistedEnvelope`](crate::envelope::PersistedEnvelope),
//! but it drops the store-local global sequence and carries the producer's
//! stream id.
use core::ops::Range;
use vstd::prelude::*;
use vstd::string::StringSliceAdditionalSpecFns;
use crate::envelope::{
    idx, opt_range, opt_span, range_bytes, row_check, validate_row, EnvelopeError, Span,
};
use crate::value::{
    copy_bytes, event_type_ok, metadata_ok, str_from_utf8, sub_slice, EventType, Metadata, Payload,
    MAX_PAYLOAD_LEN,
};
use crate::version::{SchemaVersion, Version};

verus! {

/// Transport view of one event.
#[derive(Debug, Clone)]
pub struct PortableEvent {
    stream_id: Vec<u8>,
    version: Version,
    schema_version: SchemaVersion,
    value: Vec<u8>,
    event_type_range: Span,
    payload_range: Span,
    metadata_range: Option<Span>,
}

impl PortableEvent {
    pub closed spec fn spec_stream_id(&self) -> Seq<u8> {
        self.stream_id@
    }

    pub closed spec fn spec_version(&self) -> Version {
        self.version
    }

    pub closed spec fn spec_schema_version(&self) -> SchemaVersion {
        self.schema_version
    }

    pub closed spec fn event_type_view(&self) -> Seq<u8> {
        range_bytes(self.value@, self.event_type_range.range())
    }

    pub closed spec fn payload_view(&self) -> Seq<u8> {
        range_bytes(self.value@, self.payload_range.range())
    }

    pub closed spec fn metadata_view(&self) -> Option<Seq<u8>> {
        match self.metadata_range {
            Some(r) => Some(range_bytes(self.value@, r.range())),
            None => None,
        }
    }

    /// What `try_new` established.
    pub closed spec fn wf(&self) -> bool {
        &&& self.version.wf()
        &&& self.schema_version.wf()
        &&& row_check(
            self.value@,
            self.event_type_range.range(),
            self.payload_range.range(),
            opt_range(self.metadata_range),
        ) is Ok
    }

    pub proof fn lemma_wf(&self)
        requires
            self.wf(),
        ensures
            self.spec_version().wf(),
            self.spec_schema_version().wf(),
            event_type_ok(self.event_type_view()),
            self.payload_view().len() <= MAX_PAYLOAD_LEN,
            self.metadata_view() matches Some(m) ==> metadata_ok(m),
    {
    }

    /// Construct from decoded transport data; the same checks, in the same
    /// order, as the persisted envelope.
    pub fn try_new(
        stream_id: Vec<u8>,
        version: Version,
        value: Vec<u8>,
        schema_version: SchemaVersion,
        event_type_range: Range<u32>,
        payload_range: Range<u32>,
        metadata_range: Option<Range<u32>>,
    ) -> (r: Result<PortableEvent, EnvelopeError>)
        requires
            version.wf(),
            schema_version.wf(),
        ensures
            match row_check(value@, event_type_range, payload_range, metadata_range) {
                Ok(_) => r matches Ok(e) && e.wf() && e.spec_stream_id() == stream_id@
                    && e.spec_version() == version && e.spec_schema_version() == schema_version
                    && e.event_type_view() == range_bytes(value@, event_type_range)
                    && e.payload_view() == range_bytes(value@, payload_range) && e.metadata_view()
                    == (match metadata_range {
                    Some(m) => Some(range_bytes(value@, m)),
                    None => None::<Seq<u8>>,
                }),
                Err(err) => r == Err::<PortableEvent, EnvelopeError>(err),
            },
    {
        validate_row(value.as_slice(), &event_type_range, &payload_range, &metadata_range)?;
        Ok(
            PortableEvent {
                stream_id,
                version,
                schema_version,
                value,
                event_type_range: Span::of(&event_type_range),
                payload_range: Span::of(&payload_range),
                metadata_range: opt_span(&metadata_range),
            },
        )
    }

    /// The producer's stream id.
    pub fn stream_id(&self) -> (r: &[u8])
        ensures
            r@ == self.spec_stream_id(),
    {
        self.stream_id.as_slice()
    }

    /// The producer's stream id, owned.
    pub fn stream_id_bytes(&self) -> (r: Vec<u8>)
        ensures
            r@ == self.spec_stream_id(),
    {
        copy_bytes(self.stream_id.as_slice())
    }

    pub fn version(&self) -> (r: Version)
        ensures
            r == self.spec_version(),
    {
        self.version
    }

    pub fn schema_version(&self) -> (r: u32)
        ensures
            r == self.spec_schema_version().spec_u32(),
    {
        self.schema_version.get()
    }

    pub fn schema_version_value(&self) -> (r: SchemaVersion)
        ensures
            r == self.spec_schema_version(),
    {
        self.schema_version
    }

    pub fn event_type(&self) -> (r: &str)
        requires
            self.wf(),
        ensures
            r.spec_bytes() == self.event_type_view(),
    {
        let b = sub_slice(
            self.value.as_slice(),
            idx(self.event_type_range.start),
            idx(self.event_type_range.end),
        );
        match str_from_utf8(b) {
            Some(s) => s,
            None => "",
        }
    }

    pub fn event_type_bytes(&self) -> (r: Vec<u8>)
        requires
            self.wf(),
        ensures
            r@ == self.event_type_view(),
    {
        copy_bytes(
            sub_slice(
                self.value.as_slice(),
                idx(self.event_type_range.start),
                idx(self.event_type_range.end),
            ),
        )
    }

    pub fn payload(&self) -> (r: &[u8])
        requires
            self.wf(),
        ensures
            r@ == self.payload_view(),
    {
        sub_slice(
            self.value.as_slice(),
            idx(self.payload_range.start),
            idx(self.payload_range.end),
        )
    }

    pub fn payload_bytes(&self) -> (r: Vec<u8>)
        requires
            self.wf(),
        ensures
            r@ == self.payload_view(),
    {
        copy_bytes(self.payload())
    }

    pub fn metadata(&self) -> (r: Option<&[u8]>)
        requires
            self.wf(),
        ensures
            match r {
                Some(b) => self.metadata_view() == Some(b@),
                None => self.metadata_view() is None,
            },
    {
        match &self.metadata_range {
            Some(m) => Some(sub_slice(self.value.as_slice(), idx(m.start), idx(m.end))),
            None => None,
        }
    }

    pub fn metadata_bytes(&self) -> (r: Option<Vec<u8>>)
        requires
            self.wf(),
        ensures
            match r {
                Some(b) => self.metadata_view() == Some(b@),
                None => self.metadata_view() is None,
            },
    {
        match self.metadata() {
            Some(b) => Some(copy_bytes(b)),
            None => None,
        }
    }

    pub fn event_type_value(&self) -> (r: EventType)
        requires
            self.wf(),
        ensures
            r@ == self.event_type_view(),
            r.wf(),
    {
        EventType::from_validated(self.event_type_bytes())
    }

    pub fn payload_value(&self) -> (r: Payload)
        requires
            self.wf(),
        ensures
            r@ == self.payload_view(),
            r.wf(),
    {
        Payload::from_validated(self.payload_bytes())
    }

    pub fn metadata_value(&self) -> (r: Option<Metadata>)
        requires
            self.wf(),
        ensures
            match r {
                Some(m) => self.metadata_view() == Some(m@) && m.wf(),
                None => self.metadata_view() is None,
            },
    {
        match self.metadata_bytes() {
            Some(b) => Some(Metadata::from_validated(b)),
            None => None,
        }
    }
}

} // verus!
