//! Schema evolution on the read path: a chain of upcasters rewrites an
//! event's `(event_type, schema_version, payload)` until no upcaster
//! applies, with guards against runaway or non-advancing chains.
use vstd::prelude::*;

verus! {

/// How many upcasts one event may go through before the chain is
/// considered runaway.
pub const UPCAST_CHAIN_LIMIT: u32 = 100;

/// A chain of upcasters. Each step rewrites an event of a given type and
/// schema version into a later schema version. Implemented by users; the
/// library checks what the chain hands back.
///
/// `answer` and `claims` describe a chain's answers. An implementation
/// that defines them and is verified against them says so through
/// `obeys_upcast_spec`; the methods' contracts bind only such chains, so an
/// implementation written in plain Rust keeps the defaults and promises
/// nothing.
pub trait UpcasterChain {
    /// Whether this chain's methods answer as `answer` and `claims` say.
    open spec fn obeys_upcast_spec() -> bool {
        false
    }

    /// The rewrite the chain applies to `(event_type, schema_version,
    /// payload)`, if any.
    open spec fn answer(&self, event_type: Seq<char>, schema_version: u32, payload: Seq<u8>) -> Option<
        (Seq<char>, u32, Seq<u8>),
    > {
        None
    }

    /// Whether some upcaster handles `event_type` at `schema_version`.
    open spec fn claims(&self, event_type: Seq<char>, schema_version: u32) -> bool {
        false
    }

    /// Apply the first upcaster that matches, if any.
    fn try_upcast(&self, event_type: &str, schema_version: u32, payload: &[u8]) -> (r: Option<
        (String, u32, Vec<u8>),
    >)
        ensures
            Self::obeys_upcast_spec() ==> match r {
                Some((t, v, p)) => self.answer(event_type@, schema_version, payload@) == Some(
                    (t@, v, p@),
                ),
                None => self.answer(event_type@, schema_version, payload@) is None,
            },
    ;

    /// Whether some upcaster handles `event_type` at `schema_version`.
    fn can_upcast(&self, event_type: &str, schema_version: u32) -> (r: bool)
        ensures
            Self::obeys_upcast_spec() ==> r == self.claims(event_type@, schema_version),
    ;
}

/// The empty chain: nothing to upcast.
impl UpcasterChain for () {
    open spec fn obeys_upcast_spec() -> bool {
        true
    }

    open spec fn answer(&self, event_type: Seq<char>, schema_version: u32, payload: Seq<u8>) -> Option<
        (Seq<char>, u32, Seq<u8>),
    > {
        None
    }

    open spec fn claims(&self, event_type: Seq<char>, schema_version: u32) -> bool {
        false
    }

    fn try_upcast(&self, event_type: &str, schema_version: u32, payload: &[u8]) -> (r: Option<
        (String, u32, Vec<u8>),
    >) {
        None
    }

    fn can_upcast(&self, event_type: &str, schema_version: u32) -> (r: bool) {
        false
    }
}

/// A head upcaster in front of the rest of the chain: the head is checked
/// first.
pub struct Chain<H, U>(pub H, pub U);

impl<H: UpcasterChain, U: UpcasterChain> UpcasterChain for Chain<H, U> {
    /// A chain obeys when both its parts do.
    open spec fn obeys_upcast_spec() -> bool {
        H::obeys_upcast_spec() && U::obeys_upcast_spec()
    }

    /// The head's rewrite, or else the rest's.
    open spec fn answer(&self, event_type: Seq<char>, schema_version: u32, payload: Seq<u8>) -> Option<
        (Seq<char>, u32, Seq<u8>),
    > {
        match self.0.answer(event_type, schema_version, payload) {
            Some(x) => Some(x),
            None => self.1.answer(event_type, schema_version, payload),
        }
    }

    /// The head or the rest claims it.
    open spec fn claims(&self, event_type: Seq<char>, schema_version: u32) -> bool {
        self.0.claims(event_type, schema_version) || self.1.claims(event_type, schema_version)
    }

    fn try_upcast(&self, event_type: &str, schema_version: u32, payload: &[u8]) -> (r: Option<
        (String, u32, Vec<u8>),
    >) {
        match self.0.try_upcast(event_type, schema_version, payload) {
            Some(x) => Some(x),
            None => self.1.try_upcast(event_type, schema_version, payload),
        }
    }

    fn can_upcast(&self, event_type: &str, schema_version: u32) -> (r: bool) {
        self.0.can_upcast(event_type, schema_version) || self.1.can_upcast(
            event_type,
            schema_version,
        )
    }
}

/// In a chain the head is asked first: whenever the head rewrites an event,
/// the chain gives that rewrite, whatever the rest would answer; the rest
/// is asked only when the head passes. Some upcaster of the chain claims a
/// type and version exactly when the head or the rest does, and the chain
/// obeys its spec when both parts do.
pub proof fn lemma_chain_asks_the_head_first<H: UpcasterChain, U: UpcasterChain>(
    chain: Chain<H, U>,
    event_type: Seq<char>,
    schema_version: u32,
    payload: Seq<u8>,
)
    ensures
        chain.0.answer(event_type, schema_version, payload) is Some ==> chain.answer(
            event_type,
            schema_version,
            payload,
        ) == chain.0.answer(event_type, schema_version, payload),
        chain.0.answer(event_type, schema_version, payload) is None ==> chain.answer(
            event_type,
            schema_version,
            payload,
        ) == chain.1.answer(event_type, schema_version, payload),
        chain.claims(event_type, schema_version) == (chain.0.claims(event_type, schema_version)
            || chain.1.claims(event_type, schema_version)),
        Chain::<H, U>::obeys_upcast_spec() == (H::obeys_upcast_spec() && U::obeys_upcast_spec()),
{
}

/// Why an upcaster chain was refused.
#[derive(Debug, Clone, PartialEq, Eq)]
pub enum UpcastError {
    /// More than [`UPCAST_CHAIN_LIMIT`] upcasts applied to one event.
    ChainLimitExceeded { event_type: String, schema_version: u32, limit: u32 },
    /// An upcaster did not raise the schema version.
    VersionNotAdvanced { event_type: String, input_version: u32, output_version: u32 },
    /// An upcaster produced an empty event type.
    EmptyEventType { input_event_type: String, schema_version: u32 },
}

/// What to do with one answer of the chain.
#[derive(Debug)]
pub enum UpcastStep {
    /// No upcaster applied: the event is current.
    Done,
    /// Continue from this rewritten event.
    Next(String, u32, Vec<u8>),
    /// The answer breaks a guard.
    Refused(UpcastError),
}

/// Judge one answer of the chain for the event `(event_type,
/// schema_version)` after `steps` upcasts: no answer ends the walk; an
/// answer past the step limit, one that does not raise the schema
/// version, or one with an empty type is refused (checked in that order);
/// any other answer is the next event.
pub fn upcast_step(
    event_type: String,
    schema_version: u32,
    steps: u32,
    answer: Option<(String, u32, Vec<u8>)>,
) -> (r: UpcastStep)
    requires
        steps <= UPCAST_CHAIN_LIMIT,
    ensures
        match answer {
            None => r is Done,
            Some((t, v, p)) => if steps + 1 > UPCAST_CHAIN_LIMIT {
                r matches UpcastStep::Refused(UpcastError::ChainLimitExceeded { event_type: et, schema_version: sv, limit })
                    && et@ == event_type@ && sv == schema_version && limit == UPCAST_CHAIN_LIMIT
            } else if v <= schema_version {
                r matches UpcastStep::Refused(UpcastError::VersionNotAdvanced { event_type: et, input_version: iv, output_version: ov })
                    && et@ == event_type@ && iv == schema_version && ov == v
            } else if t@.len() == 0 {
                r matches UpcastStep::Refused(UpcastError::EmptyEventType { input_event_type: et, schema_version: sv })
                    && et@ == event_type@ && sv == v
            } else {
                r matches UpcastStep::Next(t2, v2, p2) && t2@ == t@ && v2 == v && p2@ == p@
            },
        },
{
    match answer {
        None => UpcastStep::Done,
        Some((new_type, new_version, new_payload)) => {
            if steps + 1 > UPCAST_CHAIN_LIMIT {
                UpcastStep::Refused(
                    UpcastError::ChainLimitExceeded {
                        event_type,
                        schema_version,
                        limit: UPCAST_CHAIN_LIMIT,
                    },
                )
            } else if new_version <= schema_version {
                UpcastStep::Refused(
                    UpcastError::VersionNotAdvanced {
                        event_type,
                        input_version: schema_version,
                        output_version: new_version,
                    },
                )
            } else if new_type.as_str().is_empty() {
                UpcastStep::Refused(
                    UpcastError::EmptyEventType {
                        input_event_type: event_type,
                        schema_version: new_version,
                    },
                )
            } else {
                UpcastStep::Next(new_type, new_version, new_payload)
            }
        },
    }
}

/// Where walking an event through a chain ends: the current event, or the
/// guard that refused an answer with the values it reports.
pub enum UpcastOutcome {
    /// No upcaster applies to this event.
    Current(Seq<char>, u32, Seq<u8>),
    /// An answer came past the step limit; the event before it.
    LimitExceeded(Seq<char>, u32),
    /// An answer did not raise the schema version; input and output versions.
    NotAdvanced(Seq<char>, u32, u32),
    /// An answer had an empty type; the input type and the answer's version.
    EmptyType(Seq<char>, u32),
}

/// Walk `(event_type, schema_version, payload)` through `chain`, `steps`
/// upcasts having been applied already: ask the chain about the current
/// event, and judge each answer as [`upcast_step`] does.
pub open spec fn upcast_walk<U: UpcasterChain>(
    chain: &U,
    event_type: Seq<char>,
    schema_version: u32,
    payload: Seq<u8>,
    steps: nat,
) -> UpcastOutcome
    decreases UPCAST_CHAIN_LIMIT - steps,
{
    match chain.answer(event_type, schema_version, payload) {
        None => UpcastOutcome::Current(event_type, schema_version, payload),
        Some((t, v, p)) => if steps + 1 > UPCAST_CHAIN_LIMIT {
            UpcastOutcome::LimitExceeded(event_type, schema_version)
        } else if v <= schema_version {
            UpcastOutcome::NotAdvanced(event_type, schema_version, v)
        } else if t.len() == 0 {
            UpcastOutcome::EmptyType(event_type, v)
        } else {
            upcast_walk(chain, t, v, p, steps + 1)
        },
    }
}

/// `r` is what [`run_upcasters`] returns for the outcome `o`.
pub open spec fn outcome_matches(
    o: UpcastOutcome,
    r: Result<(String, u32, Vec<u8>), UpcastError>,
) -> bool {
    match o {
        UpcastOutcome::Current(t, v, p) => r matches Ok((t2, v2, p2)) && t2@ == t && v2 == v
            && p2@ == p,
        UpcastOutcome::LimitExceeded(t, v) => r matches Err(
            UpcastError::ChainLimitExceeded { event_type, schema_version, limit },
        ) && event_type@ == t && schema_version == v && limit == UPCAST_CHAIN_LIMIT,
        UpcastOutcome::NotAdvanced(t, v, w) => r matches Err(
            UpcastError::VersionNotAdvanced { event_type, input_version, output_version },
        ) && event_type@ == t && input_version == v && output_version == w,
        UpcastOutcome::EmptyType(t, v) => r matches Err(
            UpcastError::EmptyEventType { input_event_type, schema_version },
        ) && input_event_type@ == t && schema_version == v,
    }
}

/// Upcast one persisted event through the chain until no upcaster
/// applies, asking the chain first about the event as stored. For a chain
/// that obeys its spec, the result is exactly [`upcast_walk`]'s; whatever
/// any chain answers, an accepted result never has a lower schema version
/// than the input, and every accepted rewrite strictly raised it and kept a
/// non-empty type.
pub fn run_upcasters<U: UpcasterChain>(
    upcasters: &U,
    event_type: &str,
    schema_version: u32,
    payload: &[u8],
) -> (r: Result<(String, u32, Vec<u8>), UpcastError>)
    ensures
        U::obeys_upcast_spec() ==> outcome_matches(
            upcast_walk(upcasters, event_type@, schema_version, payload@, 0),
            r,
        ),
        r matches Ok((t, v, p)) ==> v >= schema_version && (v == schema_version ==> t@
            == event_type@ && p@ == payload@) && (v > schema_version ==> t@.len() > 0),
{
    let mut current_type: String = event_type.to_owned();
    let mut current_version = schema_version;
    let mut current_payload: Vec<u8> = crate::value::copy_bytes(payload);
    let mut iterations: u32 = 0;
    loop
        invariant
            iterations <= UPCAST_CHAIN_LIMIT,
            current_version >= schema_version,
            current_version == schema_version ==> current_type@ == event_type@
                && current_payload@ == payload@,
            current_version > schema_version ==> current_type@.len() > 0,
            U::obeys_upcast_spec() ==> upcast_walk(
                upcasters,
                current_type@,
                current_version,
                current_payload@,
                iterations as nat,
            ) == upcast_walk(upcasters, event_type@, schema_version, payload@, 0),
        decreases UPCAST_CHAIN_LIMIT - iterations,
    {
        let answer = upcasters.try_upcast(current_type.as_str(), current_version, current_payload.as_slice());
        let ghost cv = current_version;
        match upcast_step(current_type.clone(), current_version, iterations, answer) {
            UpcastStep::Done => {
                return Ok((current_type, current_version, current_payload));
            },
            UpcastStep::Refused(e) => {
                return Err(e);
            },
            UpcastStep::Next(t, v, p) => {
                current_type = t;
                current_version = v;
                current_payload = p;
                iterations = iterations + 1;
            },
        }
    }
}

/// What one answer of the chain means while looking for the current
/// schema version.
#[derive(Debug, Clone, Copy, PartialEq, Eq, Structural)]
pub enum SchemaProbe {
    /// This is the current schema version.
    Found(u32),
    /// Ask about this version next.
    Next(u32),
}

/// Judge the chain's answer to "does an upcaster claim `version`?": an
/// unclaimed version is the current one; a claimed one moves on to the
/// next version, unless that is past the chain limit, which is then taken
/// as the current one.
pub fn schema_probe(version: u32, claimed: bool) -> (r: SchemaProbe)
    requires
        1 <= version <= UPCAST_CHAIN_LIMIT + 1,
    ensures
        r == (if !claimed {
            SchemaProbe::Found(version)
        } else if version + 1 > UPCAST_CHAIN_LIMIT + 1 {
            SchemaProbe::Found((version + 1) as u32)
        } else {
            SchemaProbe::Next((version + 1) as u32)
        }),
{
    if !claimed {
        SchemaProbe::Found(version)
    } else if version + 1 > UPCAST_CHAIN_LIMIT + 1 {
        SchemaProbe::Found(version + 1)
    } else {
        SchemaProbe::Next(version + 1)
    }
}

/// Walking versions upward from `version`: the first one that `chain` does
/// not claim for `event_type`, or the version just past the chain limit
/// when every one up to the limit is claimed.
pub open spec fn first_unclaimed<U: UpcasterChain>(chain: &U, event_type: Seq<char>, version: u32) -> u32
    decreases UPCAST_CHAIN_LIMIT + 1 - version,
{
    if !chain.claims(event_type, version) {
        version
    } else if version + 1 > UPCAST_CHAIN_LIMIT + 1 {
        (version + 1) as u32
    } else {
        first_unclaimed(chain, event_type, (version + 1) as u32)
    }
}

/// The schema version new events of `event_type` are stored at: walking
/// versions from 1 upward, the first one no upcaster claims (capped just
/// past the chain limit). Each answer of the chain is judged by
/// [`schema_probe`]. For a chain that obeys its spec the result is
/// [`first_unclaimed`] from 1; whatever any chain answers, it lies in
/// `1..=UPCAST_CHAIN_LIMIT + 2`.
pub fn current_schema_version<U: UpcasterChain>(upcasters: &U, event_type: &str) -> (r: u32)
    ensures
        U::obeys_upcast_spec() ==> r == first_unclaimed(upcasters, event_type@, 1),
        1 <= r <= UPCAST_CHAIN_LIMIT + 2,
{
    let mut version: u32 = 1;
    loop
        invariant
            1 <= version <= UPCAST_CHAIN_LIMIT + 1,
            U::obeys_upcast_spec() ==> first_unclaimed(upcasters, event_type@, version)
                == first_unclaimed(upcasters, event_type@, 1),
        decreases UPCAST_CHAIN_LIMIT + 2 - version,
    {
        let claimed = upcasters.can_upcast(event_type, version);
        match schema_probe(version, claimed) {
            SchemaProbe::Found(v) => {
                return v;
            },
            SchemaProbe::Next(v) => {
                version = v;
            },
        }
    }
}

} // verus!
