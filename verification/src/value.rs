//! Validated value newtypes carried by envelopes: [`EventType`],
//! [`Payload`], [`Metadata`]. Each holds its bytes and the invariant that
//! the wire format relies on.
use vstd::prelude::*;
use vstd::utf8::*;
use vstd::string::StringSliceAdditionalSpecFns;
use crate::version::ValueError;

verus! {

broadcast use vstd::utf8::group_utf8_lib;

/// Longest event type, in bytes.
pub const MAX_EVENT_TYPE_LEN: usize = 65535;

/// Longest payload, in bytes.
pub const MAX_PAYLOAD_LEN: usize = 4294967295;

/// Longest metadata, in bytes (`u32::MAX` is the wire's "absent" sentinel).
pub const MAX_METADATA_LEN: usize = 4294967294;

/// Reads `bytes` as a UTF-8 string (std's `str::from_utf8`).
///
/// Trusted: claims that std accepts exactly the byte sequences that vstd's
/// `valid_utf8` describes (RFC 3629: no overlong forms, no surrogates,
/// nothing above U+10FFFF), and that the accepted `&str` has those bytes.
#[verifier::external_body]
pub(crate) fn str_from_utf8(bytes: &[u8]) -> (r: Option<&str>)
    ensures
        r is Some <==> valid_utf8(bytes@),
        r matches Some(s) ==> s.spec_bytes() == bytes@,
{
    std::str::from_utf8(bytes).ok()
}

/// The bytes of a string slice.
pub(crate) fn str_bytes(s: &str) -> (r: &[u8])
    ensures
        r@ == s.spec_bytes(),
        valid_utf8(r@),
{
    let r = s.as_bytes();
    proof {
        encode_utf8_valid_utf8(s@);
    }
    r
}

/// Copies a slice into a fresh vector.
pub(crate) fn copy_bytes(s: &[u8]) -> (r: Vec<u8>)
    ensures
        r@ == s@,
{
    let mut v: Vec<u8> = Vec::with_capacity(s.len());
    let mut i: usize = 0;
    while i < s.len()
        invariant
            i <= s@.len(),
            v@ == s@.subrange(0, i as int),
        decreases s@.len() - i,
    {
        v.push(s[i]);
        i = i + 1;
    }
    assert(v@ =~= s@);
    v
}

/// A slice of `s` from `start` to `end`.
pub(crate) fn sub_slice(s: &[u8], start: usize, end: usize) -> (r: &[u8])
    requires
        start <= end <= s@.len(),
    ensures
        r@ == s@.subrange(start as int, end as int),
{
    let r = &s[start..end];
    r
}

/// Whether two byte slices are equal.
pub(crate) fn bytes_eq(a: &[u8], b: &[u8]) -> (r: bool)
    ensures
        r == (a@ == b@),
{
    if a.len() != b.len() {
        return false;
    }
    let mut i: usize = 0;
    while i < a.len()
        invariant
            a@.len() == b@.len(),
            i <= a@.len(),
            forall|j: int| 0 <= j < i ==> a@[j] == b@[j],
        decreases a@.len() - i,
    {
        if a[i] != b[i] {
            return false;
        }
        i = i + 1;
    }
    assert(a@ =~= b@);
    true
}

/// Whether two string slices hold the same characters.
pub fn str_eq(a: &str, b: &str) -> (r: bool)
    ensures
        r == (a@ == b@),
{
    let ab = a.as_bytes();
    let bb = b.as_bytes();
    let r = bytes_eq(ab, bb);
    proof {
        if r {
            encode_utf8_decode_utf8(a@);
            encode_utf8_decode_utf8(b@);
        }
    }
    r
}

/// An event type name as UTF-8 bytes. One read back from storage or built
/// from bytes is validated against [`MAX_EVENT_TYPE_LEN`] (`wf`); one taken
/// from a string literal on the write path is taken as it is.
#[derive(Debug, Clone, PartialEq, Eq)]
pub struct EventType {
    bytes: Vec<u8>,
}

/// The invariant of an event type's bytes.
pub open spec fn event_type_ok(b: Seq<u8>) -> bool {
    valid_utf8(b) && b.len() <= MAX_EVENT_TYPE_LEN
}

impl View for EventType {
    type V = Seq<u8>;

    closed spec fn view(&self) -> Seq<u8> {
        self.bytes@
    }
}

impl EventType {
    /// The invariant every constructor establishes.
    pub open spec fn wf(&self) -> bool {
        event_type_ok(self@)
    }

    /// Validate UTF-8 and the length cap.
    pub fn from_bytes(bytes: Vec<u8>) -> (r: Result<EventType, ValueError>)
        ensures
            r is Ok <==> event_type_ok(bytes@),
            r matches Ok(t) ==> t@ == bytes@ && t.wf(),
            !valid_utf8(bytes@) ==> r == Err::<EventType, ValueError>(ValueError::InvalidUtf8),
            valid_utf8(bytes@) && bytes@.len() > MAX_EVENT_TYPE_LEN ==> r == Err::<EventType, ValueError>(
                ValueError::EventTypeTooLong { actual: bytes@.len() as usize, max: MAX_EVENT_TYPE_LEN },
            ),
    {
        if str_from_utf8(bytes.as_slice()).is_none() {
            return Err(ValueError::InvalidUtf8);
        }
        if bytes.len() > MAX_EVENT_TYPE_LEN {
            return Err(ValueError::EventTypeTooLong { actual: bytes.len(), max: MAX_EVENT_TYPE_LEN });
        }
        Ok(EventType { bytes })
    }

    /// From a string; fails only on the length cap.
    pub fn from_str_checked(s: &str) -> (r: Result<EventType, ValueError>)
        ensures
            r is Ok <==> s.spec_bytes().len() <= MAX_EVENT_TYPE_LEN,
            r matches Ok(t) ==> t@ == s.spec_bytes() && t.wf(),
            s.spec_bytes().len() > MAX_EVENT_TYPE_LEN ==> r == Err::<EventType, ValueError>(
                ValueError::EventTypeTooLong { actual: s.spec_bytes().len() as usize, max: MAX_EVENT_TYPE_LEN },
            ),
    {
        let b = str_bytes(s);
        if b.len() > MAX_EVENT_TYPE_LEN {
            return Err(ValueError::EventTypeTooLong { actual: b.len(), max: MAX_EVENT_TYPE_LEN });
        }
        Ok(EventType { bytes: copy_bytes(b) })
    }

    /// From a string literal, taken as it is: valid UTF-8 by construction,
    /// and within the cap whenever the literal is.
    pub fn from_static_str(s: &'static str) -> (r: EventType)
        ensures
            r@ == s.spec_bytes(),
            valid_utf8(r@),
            s.spec_bytes().len() <= MAX_EVENT_TYPE_LEN ==> r.wf(),
    {
        let b = str_bytes(s);
        EventType { bytes: copy_bytes(b) }
    }

    /// Build from bytes already known to be UTF-8.
    pub(crate) fn from_validated(bytes: Vec<u8>) -> (r: EventType)
        requires
            valid_utf8(bytes@),
        ensures
            r@ == bytes@,
            event_type_ok(bytes@) ==> r.wf(),
    {
        EventType { bytes }
    }

    /// The bytes.
    pub fn as_bytes(&self) -> (r: &[u8])
        ensures
            r@ == self@,
    {
        self.bytes.as_slice()
    }

    /// The text.
    pub fn as_str(&self) -> (r: &str)
        requires
            valid_utf8(self@),
        ensures
            r.spec_bytes() == self@,
    {
        match str_from_utf8(self.bytes.as_slice()) {
            Some(s) => s,
            None => "",
        }
    }

    /// Length in bytes.
    pub fn len(&self) -> (r: usize)
        ensures
            r == self@.len(),
    {
        self.bytes.len()
    }
}

/// A payload: opaque bytes, at most [`MAX_PAYLOAD_LEN`] long.
#[derive(Debug, Clone, PartialEq, Eq)]
pub struct Payload {
    bytes: Vec<u8>,
}

impl View for Payload {
    type V = Seq<u8>;

    closed spec fn view(&self) -> Seq<u8> {
        self.bytes@
    }
}

impl Payload {
    /// The invariant every constructor establishes.
    pub open spec fn wf(&self) -> bool {
        self@.len() <= MAX_PAYLOAD_LEN
    }

    /// Validate the length cap.
    pub fn from_bytes(bytes: Vec<u8>) -> (r: Result<Payload, ValueError>)
        ensures
            r is Ok <==> bytes@.len() <= MAX_PAYLOAD_LEN,
            r matches Ok(p) ==> p@ == bytes@ && p.wf(),
            bytes@.len() > MAX_PAYLOAD_LEN ==> r == Err::<Payload, ValueError>(
                ValueError::PayloadTooLong { actual: bytes@.len() as usize, max: MAX_PAYLOAD_LEN },
            ),
    {
        if bytes.len() > MAX_PAYLOAD_LEN {
            return Err(ValueError::PayloadTooLong { actual: bytes.len(), max: MAX_PAYLOAD_LEN });
        }
        Ok(Payload { bytes })
    }

    pub(crate) fn from_validated(bytes: Vec<u8>) -> (r: Payload)
        requires
            bytes@.len() <= MAX_PAYLOAD_LEN,
        ensures
            r@ == bytes@,
            r.wf(),
    {
        Payload { bytes }
    }

    /// The bytes.
    pub fn as_slice(&self) -> (r: &[u8])
        ensures
            r@ == self@,
    {
        self.bytes.as_slice()
    }

    /// The bytes, owned.
    pub fn into_bytes(self) -> (r: Vec<u8>)
        ensures
            r@ == self@,
    {
        self.bytes
    }
}

/// Metadata: non-empty bytes, at most [`MAX_METADATA_LEN`] long.
#[derive(Debug, Clone, PartialEq, Eq)]
pub struct Metadata {
    bytes: Vec<u8>,
}

/// The invariant of metadata bytes.
pub open spec fn metadata_ok(b: Seq<u8>) -> bool {
    0 < b.len() <= MAX_METADATA_LEN
}

impl View for Metadata {
    type V = Seq<u8>;

    closed spec fn view(&self) -> Seq<u8> {
        self.bytes@
    }
}

impl Metadata {
    /// The invariant every constructor establishes.
    pub open spec fn wf(&self) -> bool {
        metadata_ok(self@)
    }

    /// Validate non-emptiness and the length cap.
    pub fn from_bytes(bytes: Vec<u8>) -> (r: Result<Metadata, ValueError>)
        ensures
            r is Ok <==> metadata_ok(bytes@),
            r matches Ok(m) ==> m@ == bytes@ && m.wf(),
            bytes@.len() == 0 ==> r == Err::<Metadata, ValueError>(ValueError::EmptyMetadata),
            bytes@.len() > MAX_METADATA_LEN ==> r == Err::<Metadata, ValueError>(
                ValueError::MetadataTooLong { actual: bytes@.len() as usize, max: MAX_METADATA_LEN },
            ),
    {
        if bytes.len() == 0 {
            return Err(ValueError::EmptyMetadata);
        }
        if bytes.len() > MAX_METADATA_LEN {
            return Err(ValueError::MetadataTooLong { actual: bytes.len(), max: MAX_METADATA_LEN });
        }
        Ok(Metadata { bytes })
    }

    pub(crate) fn from_validated(bytes: Vec<u8>) -> (r: Metadata)
        requires
            metadata_ok(bytes@),
        ensures
            r@ == bytes@,
            r.wf(),
    {
        Metadata { bytes }
    }

    /// The bytes.
    pub fn as_slice(&self) -> (r: &[u8])
        ensures
            r@ == self@,
    {
        self.bytes.as_slice()
    }

    /// The bytes, owned.
    pub fn into_bytes(self) -> (r: Vec<u8>)
        ensures
            r@ == self@,
    {
        self.bytes
    }
}

} // verus!
