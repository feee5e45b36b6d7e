//! The save path of the repository facades, as a plan: which versions the
//! decided events take, what schema version each is stamped with, and the
//! pending envelopes handed to the adapter's append — or the first error
//! met while building them, event by event.
use vstd::prelude::*;
use vstd::string::StringSliceAdditionalSpecFns;
use crate::envelope::{pending_envelope, EnvelopeError, PendingEnvelope};
use crate::error::StoreError;
use crate::value::{MAX_EVENT_TYPE_LEN, MAX_PAYLOAD_LEN};
use crate::version::{SchemaVersion, ValueError, Version};

verus! {

broadcast use crate::version::group_positions;

/// The number a stream position stands for (`None` = empty stream = 0).
pub open spec fn position_of(v: Option<Version>) -> int {
    match v {
        Some(x) => x.spec_u64() as int,
        None => 0,
    }
}

/// The first version an append will assign, given the stream's current
/// version (`None` = empty stream); `None` on overflow past `u64::MAX`.
pub fn first_persisted_version(current: Option<Version>) -> (r: Option<Version>)
    ensures
        position_of(current) < u64::MAX ==> r == Some(Version::of((position_of(current) + 1) as u64)),
        position_of(current) == u64::MAX ==> r is None,
{
    match current {
        None => Some(Version::initial()),
        Some(v) => v.next(),
    }
}

/// Narrow a version to a schema version; `None` past `u32::MAX`.
pub fn version_to_nz32(version: Version) -> (r: Option<SchemaVersion>)
    requires
        version.wf(),
    ensures
        version.spec_u64() <= u32::MAX ==> r == Some(SchemaVersion::of(version.spec_u64() as u32)),
        version.spec_u64() > u32::MAX ==> r is None,
{
    let raw = version.as_u64();
    if raw > 0xffff_ffff {
        return None;
    }
    match SchemaVersion::from_u32(raw as u32) {
        Ok(s) => Some(s),
        Err(_) => None,
    }
}

/// One decided event after the codec has run: its name, what the encoder
/// gave back, and the schema version the caller's lookup gave (`None` =
/// the initial schema version).
pub struct EncodedEvent<E> {
    pub event_type: &'static str,
    pub encoded: Result<Vec<u8>, E>,
    pub schema: Option<Version>,
}

/// What to append: the expected version, the envelopes in order, and the
/// version of the last one.
pub struct SavePlan {
    pub expected_version: Option<Version>,
    pub envelopes: Vec<PendingEnvelope>,
    pub last_version: Version,
}

/// The schema number an event is stamped with.
pub open spec fn schema_number(s: Option<Version>) -> int {
    match s {
        Some(v) => v.spec_u64() as int,
        None => 1,
    }
}

/// Why a save plan is refused, in terms of the events (`Encode(i)`: the
/// encoder failed on event `i`).
pub enum SaveFail {
    Encode(int),
    VersionOverflow,
    PayloadTooLong(int),
}

/// The first failure the save loop meets from event `i` on, where event
/// `i` takes version `next`: per event, the encoder's error, then a schema
/// version past `u32::MAX`, then the payload cap; between events, a
/// version past `u64::MAX`.
pub open spec fn save_fail_from<E>(evs: Seq<EncodedEvent<E>>, i: int, next: int) -> Option<SaveFail>
    decreases evs.len() - i,
{
    if i < 0 || i >= evs.len() {
        None
    } else {
        match evs[i].encoded {
            Err(_) => Some(SaveFail::Encode(i)),
            Ok(p) => if schema_number(evs[i].schema) > u32::MAX {
                Some(SaveFail::VersionOverflow)
            } else if p@.len() > MAX_PAYLOAD_LEN {
                Some(SaveFail::PayloadTooLong(i))
            } else if i + 1 < evs.len() && next >= u64::MAX {
                Some(SaveFail::VersionOverflow)
            } else {
                save_fail_from(evs, i + 1, next + 1)
            },
        }
    }
}

/// A save refuses an event for its payload only when the encoded payload
/// is longer than [`MAX_PAYLOAD_LEN`]: any other payload, empty ones
/// included, never makes the save fail for its size.
pub proof fn lemma_payload_refused_only_past_the_cap<E>(evs: Seq<EncodedEvent<E>>, i: int, next: int)
    ensures
        save_fail_from(evs, i, next) matches Some(SaveFail::PayloadTooLong(j)) ==> i <= j
            < evs.len() && (evs[j].encoded matches Ok(p) && p@.len() > MAX_PAYLOAD_LEN),
    decreases evs.len() - i,
{
    if 0 <= i < evs.len() {
        lemma_payload_refused_only_past_the_cap(evs, i + 1, next + 1);
    }
}

/// A save of events that all encode within the cap, with schema versions
/// that fit `u32` and versions that fit `u64`, meets no failure: every
/// event is planned.
pub proof fn lemma_fitting_events_are_planned<E>(evs: Seq<EncodedEvent<E>>, i: int, next: int)
    requires
        0 <= i,
        next >= 1,
        next + evs.len() - i - 1 <= u64::MAX,
        forall|j: int|
            i <= j < evs.len() ==> ((#[trigger] evs[j]).encoded matches Ok(p) && p@.len()
                <= MAX_PAYLOAD_LEN) && schema_number(evs[j].schema) <= u32::MAX,
    ensures
        save_fail_from(evs, i, next) is None,
    decreases evs.len() - i,
{
    if i < evs.len() {
        lemma_fitting_events_are_planned(evs, i + 1, next + 1);
    }
}

/// The envelope planned for event `ev` at `version`. The name is taken
/// as the event gives it; the envelope is well formed whenever the name is
/// within [`MAX_EVENT_TYPE_LEN`].
pub open spec fn planned<E>(e: PendingEnvelope, ev: EncodedEvent<E>, version: int) -> bool {
    &&& e.spec_version().wf()
    &&& e.spec_schema_version().wf()
    &&& e.spec_payload().len() <= MAX_PAYLOAD_LEN
    &&& (ev.event_type.spec_bytes().len() <= MAX_EVENT_TYPE_LEN ==> e.wf())
    &&& e.spec_version().spec_u64() == version
    &&& e.spec_event_type() == ev.event_type.spec_bytes()
    &&& (ev.encoded matches Ok(p) && e.spec_payload() == p@)
    &&& e.spec_schema_version().spec_u32() == schema_number(ev.schema)
    &&& e.spec_metadata() is None
}

/// Plan a save of decided events onto a stream at `expected_version`:
/// contiguous versions from the next one, each event stamped with its
/// schema version (1 when the lookup gave none). With no events there is
/// nothing to append: `Ok(None)`, whatever the expected version.
pub fn plan_save<A, E, D>(expected_version: Option<Version>, events: Vec<EncodedEvent<E>>) -> (r: Result<
    Option<SavePlan>,
    StoreError<A, E, D>,
>)
    requires
        forall|i: int|
            0 <= i < events@.len() ==> ((#[trigger] events@[i]).schema matches Some(v) ==> v.wf()),
    ensures
        events@.len() == 0 ==> r matches Ok(None),
        events@.len() > 0 && position_of(expected_version) == u64::MAX ==> r matches Err(
            StoreError::VersionOverflow,
        ),
        events@.len() > 0 && position_of(expected_version) < u64::MAX ==> match save_fail_from(
            events@,
            0,
            position_of(expected_version) + 1,
        ) {
            Some(SaveFail::Encode(i)) => r matches Err(StoreError::Encode(e)) && events@[i].encoded
                == Err::<Vec<u8>, E>(e),
            Some(SaveFail::VersionOverflow) => r matches Err(StoreError::VersionOverflow),
            Some(SaveFail::PayloadTooLong(i)) => r matches Err(
                StoreError::Envelope(EnvelopeError::Value(ValueError::PayloadTooLong { actual, max })),
            ) && events@[i].encoded matches Ok(p) && actual == p@.len() && max == MAX_PAYLOAD_LEN,
            None => r matches Ok(Some(plan)) && plan.expected_version == expected_version
                && plan.envelopes@.len() == events@.len() && plan.last_version.spec_u64()
                == position_of(expected_version) + events@.len() && forall|i: int|
                0 <= i < events@.len() ==> planned(
                    #[trigger] plan.envelopes@[i],
                    events@[i],
                    position_of(expected_version) + 1 + i,
                ),
        },
{
    if events.len() == 0 {
        return Ok(None);
    }
    let mut next_version = match first_persisted_version(expected_version) {
        Some(v) => v,
        None => return Err(StoreError::VersionOverflow),
    };
    let ghost first = position_of(expected_version) + 1;
    let ghost evs = events@;
    let n = events.len();
    let mut pending = events;
    let mut envelopes: Vec<PendingEnvelope> = Vec::new();
    let mut last_version = next_version;
    let mut i: usize = 0;
    while i < n
        invariant
            n == evs.len(),
            pending@ == evs,
            events@ == evs,
            i <= n,
            n >= 1,
            first == position_of(expected_version) + 1,
            first <= u64::MAX,
            next_version.wf(),
            i < n ==> next_version.spec_u64() == first + i,
            i > 0 ==> last_version.spec_u64() == first + i - 1,
            envelopes@.len() == i,
            forall|j: int| 0 <= j < evs.len() ==> ((#[trigger] evs[j]).schema matches Some(v) ==> v.wf()),
            forall|j: int| 0 <= j < i ==> planned(#[trigger] envelopes@[j], evs[j], first + j),
            save_fail_from(evs, 0, first) == save_fail_from(evs, i as int, first + i),
        decreases n - i,
    {
        if pending[i].encoded.is_err() {
            let ev = pending.remove(i);
            assert(ev == evs[i as int]);
            assert(save_fail_from(evs, i as int, first + i) == Some(SaveFail::Encode(i as int)));
            match ev.encoded {
                Err(e) => {
                    assert(evs[i as int].encoded == Err::<Vec<u8>, E>(e));
                    return Err(StoreError::Encode(e));
                },
                Ok(_) => {
                    return Err(StoreError::VersionOverflow);
                },
            }
        }
        let payload: Vec<u8> = match &pending[i].encoded {
            Ok(p) => crate::value::copy_bytes(p.as_slice()),
            Err(_) => Vec::new(),
        };
        let schema_version = match pending[i].schema {
            Some(v) => v,
            None => Version::initial(),
        };
        let schema = match version_to_nz32(schema_version) {
            Some(s) => s,
            None => {
                return Err(StoreError::VersionOverflow);
            },
        };
        let plen = payload.len();
        assert(payload@.len() == plen);
        let with_payload = match pending_envelope(next_version).event_type(pending[i].event_type).payload(
            payload,
        ) {
            Ok(w) => w,
            Err(e) => {
                return Err(StoreError::Envelope(e));
            },
        };
        let envelope = with_payload.schema_version(schema).build();
        last_version = next_version;
        envelopes.push(envelope);
        if i + 1 < n {
            next_version = match next_version.next() {
                Some(v) => v,
                None => {
                    return Err(StoreError::VersionOverflow);
                },
            };
        }
        i = i + 1;
    }
    Ok(Some(SavePlan { expected_version, envelopes, last_version }))
}

} // verus!
