//! Import — picky per stream, halt never skip.
//!
//! Import places already-decoded events (the chunk box turns bytes into
//! [`StreamSection`]s) onto caller-routed target streams. The rules:
//!
//! - **Picky per stream**: a stream's first incoming version must be its next
//!   expected version, else the stream is rejected (no silent trimming).
//! - **Halt, never skip**: a corrupt block or a version discontinuity halts
//!   its stream at the last good version; later blocks are held back.
//! - **Atomicity is the caller's policy** ([`Atomicity`]): whole chunk
//!   (all-or-nothing) or per stream.
//!
//! The store work itself (appends, transactions) is the adapter's; this
//! module decides what to write and what to report for every answer the
//! store can give.
use vstd::prelude::*;
use crate::envelope::{PendingEnvelope, PersistedEnvelope};
use crate::error::AppendError;
use crate::stream_id::StreamKey;
use crate::version::Version;
use crate::text::{decimal, push_decimal};
use crate::value::str_from_utf8;
use vstd::utf8::{valid_utf8, decode_utf8, encode_utf8_decode_utf8};

verus! {

broadcast use crate::version::group_positions;

/// Atomicity granularity for an import — a caller policy.
#[derive(Debug, Clone, Copy, PartialEq, Eq, Structural)]
pub enum Atomicity {
    /// All-or-nothing across the chunk.
    WholeChunk,
    /// Each stream commits on its own.
    PerStream,
}

/// How one stream's import ended, and where the stream sits afterward.
#[derive(Debug, Clone, Copy, PartialEq, Eq, Structural)]
pub enum StreamOutcome {
    /// Every offered block was applied; the stream is at `version`.
    Complete { version: Version },
    /// A block failed its checksum; the good prefix (if any) was applied.
    Corrupt { reached: Option<Version> },
    /// A block's version was not the next expected one; good prefix applied.
    Mismatch { reached: Option<Version>, got: Version },
}

impl StreamOutcome {
    /// Whether every offered block was applied.
    pub fn is_complete(&self) -> (r: bool)
        ensures
            r == (self is Complete),
    {
        match self {
            StreamOutcome::Complete { .. } => true,
            _ => false,
        }
    }

    pub open spec fn spec_reached(self) -> Option<Version> {
        match self {
            StreamOutcome::Complete { version } => Some(version),
            StreamOutcome::Corrupt { reached } => reached,
            StreamOutcome::Mismatch { reached, .. } => reached,
        }
    }

    /// Where the stream sits after import (`None` = untouched).
    pub fn reached(&self) -> (r: Option<Version>)
        ensures
            r == self.spec_reached(),
    {
        match self {
            StreamOutcome::Complete { version } => Some(*version),
            StreamOutcome::Corrupt { reached } => *reached,
            StreamOutcome::Mismatch { reached, .. } => *reached,
        }
    }
}

/// One stream's outcome, tagged with the caller's target stream.
#[derive(Debug, Clone, PartialEq, Eq)]
pub struct StreamReport {
    pub stream: StreamKey,
    pub outcome: StreamOutcome,
}

/// The reports that are not `Complete`, in order.
pub open spec fn incomplete_reports(s: Seq<StreamReport>) -> Seq<StreamReport>
    decreases s.len(),
{
    if s.len() == 0 {
        Seq::empty()
    } else {
        let rest = incomplete_reports(s.drop_last());
        if s.last().outcome is Complete {
            rest
        } else {
            rest.push(s.last())
        }
    }
}

/// The unfinished streams of a report are exactly its reports whose
/// outcome is not `Complete`, in their order: every `Corrupt` or `Mismatch`
/// report appears, whatever it reached, and nothing `Complete` does.
pub proof fn lemma_unfinished_are_the_incomplete(s: Seq<StreamReport>)
    ensures
        incomplete_reports(s) == s.filter(|x: StreamReport| !(x.outcome is Complete)),
        forall|i: int|
            0 <= i < s.len() && !(s[i].outcome is Complete) ==> incomplete_reports(s).contains(
                #[trigger] s[i],
            ),
        forall|j: int|
            0 <= j < incomplete_reports(s).len() ==> !((#[trigger] incomplete_reports(s)[j]).outcome is Complete),
    decreases s.len(),
{
    let pred = |x: StreamReport| !(x.outcome is Complete);
    reveal(Seq::filter);
    if s.len() > 0 {
        lemma_unfinished_are_the_incomplete(s.drop_last());
    }
    assert(incomplete_reports(s) == s.filter(pred));
    assert forall|i: int| 0 <= i < s.len() && !(s[i].outcome is Complete) implies incomplete_reports(
        s,
    ).contains(#[trigger] s[i]) by {
        s.lemma_filter_contains(pred, i);
    }
    assert forall|j: int| 0 <= j < incomplete_reports(s).len() implies !((#[trigger] incomplete_reports(
        s,
    )[j]).outcome is Complete) by {
        s.lemma_filter_pred(pred, j);
    }
}

/// Per-stream outcomes of an import, in first-seen order.
#[derive(Debug, Clone, PartialEq, Eq)]
pub struct ImportReport {
    streams: Vec<StreamReport>,
}

impl ImportReport {
    pub closed spec fn spec_streams(&self) -> Seq<StreamReport> {
        self.streams@
    }

    /// Build a report from per-stream outcomes.
    pub fn new(streams: Vec<StreamReport>) -> (r: ImportReport)
        ensures
            r.spec_streams() == streams@,
    {
        ImportReport { streams }
    }

    /// All per-stream outcomes, in first-seen order.
    pub fn streams(&self) -> (r: &[StreamReport])
        ensures
            r@ == self.spec_streams(),
    {
        self.streams.as_slice()
    }

    /// The streams that are not complete, in order.
    pub fn unfinished(&self) -> (r: Vec<&StreamReport>)
        ensures
            r@.len() == incomplete_reports(self.spec_streams()).len(),
            forall|j: int|
                0 <= j < r@.len() ==> *r@[j] == incomplete_reports(self.spec_streams())[j],
    {
        let mut out: Vec<&StreamReport> = Vec::new();
        let mut i: usize = 0;
        while i < self.streams.len()
            invariant
                i <= self.streams@.len(),
                out@.len() == incomplete_reports(self.streams@.subrange(0, i as int)).len(),
                forall|j: int|
                    0 <= j < out@.len() ==> *out@[j] == incomplete_reports(
                        self.streams@.subrange(0, i as int),
                    )[j],
            decreases self.streams@.len() - i,
        {
            proof {
                assert(self.streams@.subrange(0, i + 1).drop_last() =~= self.streams@.subrange(
                    0,
                    i as int,
                ));
            }
            let s = &self.streams[i];
            if !s.outcome.is_complete() {
                out.push(s);
            }
            i = i + 1;
        }
        assert(self.streams@.subrange(0, i as int) =~= self.streams@);
        out
    }

    /// Whether every stream completed (vacuously true when empty).
    pub fn all_complete(&self) -> (r: bool)
        ensures
            r == (forall|j: int|
                0 <= j < self.spec_streams().len() ==> (#[trigger] self.spec_streams()[j]).outcome is Complete),
    {
        let mut i: usize = 0;
        while i < self.streams.len()
            invariant
                i <= self.streams@.len(),
                forall|j: int| 0 <= j < i ==> (#[trigger] self.streams@[j]).outcome is Complete,
            decreases self.streams@.len() - i,
        {
            if !self.streams[i].outcome.is_complete() {
                return false;
            }
            i = i + 1;
        }
        true
    }
}

/// Why a whole-chunk import aborted — the first bad block's failure mode.
#[derive(Debug, Clone, Copy, PartialEq, Eq, Structural)]
pub enum AbortReason {
    /// A block failed its checksum.
    Corrupt,
    /// A block's version was not the target's next expected version.
    Mismatch { expected: Version, got: Version },
}

impl AbortReason {
    /// The reason as a sentence: its `Display` text.
    pub open spec fn text(self) -> Seq<char> {
        match self {
            AbortReason::Corrupt => "block failed checksum"@,
            AbortReason::Mismatch { expected, got } => "version mismatch (expected "@ + decimal(
                expected.spec_u64() as nat,
            ) + ", got "@ + decimal(got.spec_u64() as nat) + ")"@,
        }
    }

    /// The reason as a sentence, e.g. `version mismatch (expected 4, got 7)`.
    pub fn message(&self) -> (r: String)
        ensures
            r@ == self.text(),
    {
        match self {
            AbortReason::Corrupt => String::from_str("block failed checksum"),
            AbortReason::Mismatch { expected, got } => {
                let mut s = String::from_str("version mismatch (expected ");
                push_decimal(&mut s, expected.as_u64());
                s.append(", got ");
                push_decimal(&mut s, got.as_u64());
                s.append(")");
                s
            },
        }
    }
}

/// A whole-operation import failure; `E` is the store's error.
#[derive(Debug)]
pub enum ImportError<E> {
    /// The chunk framing is unreadable.
    Malformed(&'static str),
    /// Whole-chunk only: a bad block rolled everything back.
    Aborted { stream: StreamKey, reason: AbortReason },
    /// The store failed.
    Store(E),
    /// A stream version overflowed `u64` (not a conflict, not retryable).
    VersionOverflow,
}

impl<E> ImportError<E> {
    /// The error's `Display` text, where this library can tell it: `None`
    /// for a store failure (its text is the store error's own) and for an
    /// abort at a stream whose key is not UTF-8 (it is shown as its string).
    pub open spec fn text(&self) -> Option<Seq<char>> {
        match self {
            ImportError::Malformed(what) => Some("malformed chunk: "@ + what@),
            ImportError::Aborted { stream, reason } => if valid_utf8(stream@) {
                Some("chunk aborted at stream "@ + decode_utf8(stream@) + ": "@ + reason.text())
            } else {
                None
            },
            ImportError::Store(_) => None,
            ImportError::VersionOverflow => Some("version overflow"@),
        }
    }

    /// The error as a sentence, e.g. `malformed chunk: bad magic`; see
    /// [`ImportError::text`] for when there is none.
    pub fn message(&self) -> (r: Option<String>)
        ensures
            r is Some <==> self.text() is Some,
            r matches Some(m) ==> self.text() == Some(m@),
    {
        match self {
            ImportError::Malformed(what) => {
                let mut s = String::from_str("malformed chunk: ");
                s.append(what);
                Some(s)
            },
            ImportError::Aborted { stream, reason } => match str_from_utf8(stream.as_bytes()) {
                Some(key) => {
                    proof {
                        encode_utf8_decode_utf8(key@);
                    }
                    let mut s = String::from_str("chunk aborted at stream ");
                    s.append(key);
                    s.append(": ");
                    let r = reason.message();
                    s.append(r.as_str());
                    Some(s)
                },
                None => None,
            },
            ImportError::Store(_) => None,
            ImportError::VersionOverflow => Some(String::from_str("version overflow")),
        }
    }
}

/// One origin stream's decoded blocks.
#[derive(Debug, Clone)]
pub struct StreamSection {
    /// The origin stream id, as recorded by the box.
    pub origin: Vec<u8>,
    /// The blocks, in the order the box laid them down.
    pub blocks: Vec<ImportBlock>,
}

/// One block within a [`StreamSection`].
#[derive(Debug, Clone)]
pub enum ImportBlock {
    /// A checksum-valid block that decoded to an event.
    Event(PersistedEnvelope),
    /// A block whose checksum failed; nothing in it can be trusted.
    Corrupt,
}

/// One planned per-stream write: a contiguous run and the head the target
/// must be at (`None` = fresh stream).
#[derive(Debug, Clone)]
pub struct PlannedAppend {
    pub target: StreamKey,
    pub expected_version: Option<Version>,
    pub events: Vec<PendingEnvelope>,
}

/// Failure of an all-or-nothing multi-stream append.
#[derive(Debug)]
pub enum AtomicAppendError<E> {
    /// Write `index` found the target's head at `actual`; nothing landed.
    Conflict { index: usize, actual: Option<Version> },
    /// Adapter failure.
    Store(E),
}

// =============================================================================
// Per-section planner
// =============================================================================

/// Where a section's contiguous run stopped.
#[derive(Debug, Clone, Copy, PartialEq, Eq, Structural)]
pub enum Halt {
    /// Every block was consumed.
    Complete,
    /// Stopped at a corrupt block.
    Corrupt,
    /// Stopped at a version discontinuity; `got` is the offending version.
    Gap { got: Version },
}

/// The store-independent plan for one section.
#[derive(Debug)]
pub enum SectionPlan {
    /// No blocks.
    Empty,
    /// The first block was corrupt.
    FirstCorrupt,
    /// A contiguous run to append, and how it ended.
    Run {
        first: Version,
        expected_version: Option<Version>,
        events: Vec<PendingEnvelope>,
        last: Version,
        halt: Halt,
    },
}

/// A stream version overflowed `u64` while planning.
#[derive(Debug, Clone, Copy, PartialEq, Eq, Structural)]
pub enum PlanError {
    VersionOverflow,
}

/// The event a block carries (meaningful for `Event` blocks).
pub open spec fn block_event(b: ImportBlock) -> PersistedEnvelope {
    b->Event_0
}

/// The version number of an `Event` block.
pub open spec fn block_ver(b: ImportBlock) -> int {
    b->Event_0.spec_version().spec_u64() as int
}

/// Every event in the section satisfies the envelope invariant.
pub open spec fn section_wf(blocks: Seq<ImportBlock>) -> bool {
    forall|i: int| 0 <= i < blocks.len() && (#[trigger] blocks[i]) is Event ==> block_event(blocks[i]).wf()
}

/// Block `i` continues the run ending at block `i - 1`.
pub open spec fn continues(blocks: Seq<ImportBlock>, i: int) -> bool {
    blocks[i] is Event && block_ver(blocks[i]) == block_ver(blocks[i - 1]) + 1
}

/// The end (exclusive) of the longest contiguous run that contains blocks
/// `0..i`, scanning forward from `i`.
pub open spec fn run_from(blocks: Seq<ImportBlock>, i: int) -> int
    decreases blocks.len() - i,
{
    if i <= 0 || i >= blocks.len() {
        i
    } else if continues(blocks, i) {
        run_from(blocks, i + 1)
    } else {
        i
    }
}

/// The end of the run that starts at block 0.
pub open spec fn run_end(blocks: Seq<ImportBlock>) -> int {
    run_from(blocks, 1)
}

/// The run stopped at an event whose predecessor is at `u64::MAX`.
pub open spec fn overflows(blocks: Seq<ImportBlock>) -> bool {
    let k = run_end(blocks);
    k < blocks.len() && blocks[k] is Event && block_ver(blocks[k - 1]) == u64::MAX
}

/// The head a run starting at `first` expects (`None` = fresh stream).
pub open spec fn head_before(first: Version) -> Option<Version> {
    if first.spec_u64() <= 1 {
        None
    } else {
        Some(Version::of((first.spec_u64() - 1) as u64))
    }
}

/// Why the run of `blocks` stopped.
pub open spec fn halt_of(blocks: Seq<ImportBlock>) -> Halt {
    let k = run_end(blocks);
    if k >= blocks.len() {
        Halt::Complete
    } else if blocks[k] is Corrupt {
        Halt::Corrupt
    } else {
        Halt::Gap { got: block_event(blocks[k]).spec_version() }
    }
}

/// A write-path envelope that carries a read-path envelope's fields.
pub open spec fn pending_matches(p: PendingEnvelope, e: PersistedEnvelope) -> bool {
    &&& p.wf()
    &&& p.spec_version() == e.spec_version()
    &&& p.spec_event_type() == e.event_type_view()
    &&& p.spec_schema_version() == e.spec_schema_version()
    &&& p.spec_payload() == e.payload_view()
    &&& p.spec_metadata() == e.metadata_view()
}

/// `events` carries the first `k` blocks, in order.
pub open spec fn run_events(events: Seq<PendingEnvelope>, blocks: Seq<ImportBlock>, k: int) -> bool {
    events.len() == k && forall|j: int|
        0 <= j < k ==> pending_matches(#[trigger] events[j], block_event(blocks[j]))
}

/// The full statement of what [`plan_section`] returns.
pub open spec fn plan_spec(blocks: Seq<ImportBlock>, r: Result<SectionPlan, PlanError>) -> bool {
    if blocks.len() == 0 {
        r matches Ok(SectionPlan::Empty)
    } else if blocks[0] is Corrupt {
        r matches Ok(SectionPlan::FirstCorrupt)
    } else if overflows(blocks) {
        r matches Err(PlanError::VersionOverflow)
    } else {
        r matches Ok(SectionPlan::Run { first, expected_version, events, last, halt }) && {
            let k = run_end(blocks);
            &&& first == block_event(blocks[0]).spec_version()
            &&& expected_version == head_before(first)
            &&& run_events(events@, blocks, k)
            &&& last == block_event(blocks[k - 1]).spec_version()
            &&& halt == halt_of(blocks)
        }
    }
}

proof fn lemma_run_from(blocks: Seq<ImportBlock>, i: int)
    requires
        1 <= i <= blocks.len(),
    ensures
        i <= run_from(blocks, i) <= blocks.len(),
        forall|j: int| i <= j < run_from(blocks, i) ==> continues(blocks, j),
        run_from(blocks, i) < blocks.len() ==> !continues(blocks, run_from(blocks, i)),
    decreases blocks.len() - i,
{
    if i < blocks.len() && continues(blocks, i) {
        lemma_run_from(blocks, i + 1);
    }
}

/// Build a section's plan: the longest contiguous run from the first block
/// and why it stopped. Pure — no store access.
pub fn plan_section(section: &StreamSection) -> (r: Result<SectionPlan, PlanError>)
    requires
        section_wf(section.blocks@),
    ensures
        plan_spec(section.blocks@, r),
{
    let blocks = &section.blocks;
    let n = blocks.len();
    if n == 0 {
        return Ok(SectionPlan::Empty);
    }
    let first_event = match &blocks[0] {
        ImportBlock::Corrupt => {
            return Ok(SectionPlan::FirstCorrupt);
        },
        ImportBlock::Event(event) => event,
    };
    let first = first_event.version();
    proof {
        first_event.lemma_wf();
        lemma_run_from(blocks@, 1);
    }
    let expected_version = if first.as_u64() <= 1 {
        None
    } else {
        Version::new(first.as_u64() - 1)
    };
    let mut events: Vec<PendingEnvelope> = Vec::new();
    events.push(PendingEnvelope::from_persisted(first_event));
    let mut last = first;
    let mut i: usize = 1;
    let halt;
    loop
        invariant
            1 <= i <= n,
            n == blocks@.len(),
            blocks@ == section.blocks@,
            section_wf(blocks@),
            blocks@[0] is Event,
            run_from(blocks@, 1) == run_from(blocks@, i as int),
            run_events(events@, blocks@, i as int),
            last == block_event(blocks@[i - 1]).spec_version(),
            first == block_event(blocks@[0]).spec_version(),
        ensures
            1 <= i <= n,
            run_end(blocks@) == i,
            run_events(events@, blocks@, i as int),
            last == block_event(blocks@[i - 1]).spec_version(),
            halt == halt_of(blocks@),
            !overflows(blocks@),
        decreases n - i,
    {
        if i == n {
            halt = Halt::Complete;
            break;
        }
        let event = match &blocks[i] {
            ImportBlock::Corrupt => {
                halt = Halt::Corrupt;
                break;
            },
            ImportBlock::Event(event) => event,
        };
        proof {
            assert(section_wf(blocks@));
            assert(blocks@[i as int] is Event);
            event.lemma_wf();
        }
        let expected_next = match last.next() {
            Some(v) => v,
            None => {
                return Err(PlanError::VersionOverflow);
            },
        };
        if event.version() != expected_next {
            proof {
                assert(event.spec_version().spec_u64() != expected_next.spec_u64());
                assert(!continues(blocks@, i as int));
            }
            halt = Halt::Gap { got: event.version() };
            break;
        }
        events.push(PendingEnvelope::from_persisted(event));
        proof {
            assert(run_from(blocks@, i as int) == run_from(blocks@, i + 1));
        }
        last = event.version();
        i = i + 1;
    }
    Ok(SectionPlan::Run { first, expected_version, events, last, halt })
}

} // verus!

verus! {

// =============================================================================
// Per-stream import: plan every section, then settle each append's answer
// =============================================================================

/// One step of a per-stream import, in section order.
#[derive(Debug)]
pub enum PerStreamStep {
    /// Nothing to write; record this report (a section whose first block
    /// was corrupt).
    Report(StreamReport),
    /// Append `write` to the store, then settle its answer with [`settle_run`].
    Append { write: PlannedAppend, first: Version, last: Version, halt: Halt },
}

/// The per-stream plan: the steps to run in order, and whether the import
/// ends in a version overflow once they are done.
#[derive(Debug)]
pub struct PerStreamPlan {
    pub steps: Vec<PerStreamStep>,
    pub overflow: bool,
}

/// Every section's events satisfy the envelope invariant.
pub open spec fn sections_wf(sections: Seq<StreamSection>) -> bool {
    forall|i: int| 0 <= i < sections.len() ==> section_wf(#[trigger] sections[i].blocks@)
}

/// The section plans to a version overflow.
pub open spec fn section_overflows(s: StreamSection) -> bool {
    s.blocks@.len() > 0 && s.blocks@[0] is Event && overflows(s.blocks@)
}

/// The first section, from `i` on, whose plan overflows (`len` if none).
pub open spec fn first_overflow_from(sections: Seq<StreamSection>, i: int) -> int
    decreases sections.len() - i,
{
    if i < 0 || i >= sections.len() {
        sections.len() as int
    } else if section_overflows(sections[i]) {
        i
    } else {
        first_overflow_from(sections, i + 1)
    }
}

/// The indices, below `m`, of the sections that have blocks.
pub open spec fn nonempty_indices(sections: Seq<StreamSection>, m: int) -> Seq<int>
    decreases m,
{
    if m <= 0 {
        Seq::empty()
    } else {
        let rest = nonempty_indices(sections, m - 1);
        if sections[m - 1].blocks@.len() > 0 {
            rest.push(m - 1)
        } else {
            rest
        }
    }
}

/// `write` is the run that `section` plans, aimed at `target`.
pub open spec fn write_for(
    write: PlannedAppend,
    first: Version,
    last: Version,
    halt: Halt,
    section: StreamSection,
    target: StreamKey,
) -> bool {
    let blocks = section.blocks@;
    let k = run_end(blocks);
    &&& write.target@ == target@
    &&& first == block_event(blocks[0]).spec_version()
    &&& write.expected_version == head_before(first)
    &&& run_events(write.events@, blocks, k)
    &&& last == block_event(blocks[k - 1]).spec_version()
    &&& halt == halt_of(blocks)
}

/// The step a non-empty, non-overflowing section plans to.
pub open spec fn step_for(step: PerStreamStep, section: StreamSection, target: StreamKey) -> bool {
    if section.blocks@[0] is Corrupt {
        step matches PerStreamStep::Report(rep) && rep.stream@ == target@ && rep.outcome
            == StreamOutcome::Corrupt { reached: None }
    } else {
        step matches PerStreamStep::Append { write, first, last, halt } && write_for(
            write,
            first,
            last,
            halt,
            section,
            target,
        )
    }
}

/// The full statement of [`plan_per_stream`] for the first `upto` sections.
pub open spec fn per_stream_steps(
    steps: Seq<PerStreamStep>,
    sections: Seq<StreamSection>,
    targets: Seq<StreamKey>,
    upto: int,
) -> bool {
    let idx = nonempty_indices(sections, upto);
    &&& steps.len() == idx.len()
    &&& forall|j: int|
        0 <= j < steps.len() ==> step_for(
            #[trigger] steps[j],
            sections[idx[j]],
            targets[idx[j]],
        )
}

proof fn lemma_first_overflow(sections: Seq<StreamSection>, i: int)
    requires
        0 <= i <= sections.len(),
    ensures
        i <= first_overflow_from(sections, i) <= sections.len(),
        forall|j: int| i <= j < first_overflow_from(sections, i) ==> !section_overflows(sections[j]),
        first_overflow_from(sections, i) < sections.len() ==> section_overflows(
            sections[first_overflow_from(sections, i)],
        ),
    decreases sections.len() - i,
{
    if i < sections.len() && !section_overflows(sections[i]) {
        lemma_first_overflow(sections, i + 1);
    }
}

/// Plan a per-stream import: one step per section that has blocks, in
/// order, up to the first section whose plan overflows; `overflow` says
/// whether such a section exists (the import then ends in
/// [`ImportError::VersionOverflow`] after the earlier steps ran).
pub fn plan_per_stream(sections: &[StreamSection], targets: &[StreamKey]) -> (r: PerStreamPlan)
    requires
        sections@.len() == targets@.len(),
        sections_wf(sections@),
    ensures
        ({
            let m = first_overflow_from(sections@, 0);
            &&& r.overflow == (m < sections@.len())
            &&& per_stream_steps(r.steps@, sections@, targets@, m)
        }),
{
    let mut steps: Vec<PerStreamStep> = Vec::new();
    let mut i: usize = 0;
    let n = sections.len();
    proof {
        lemma_first_overflow(sections@, 0);
    }
    while i < n
        invariant
            n == sections@.len(),
            n == targets@.len(),
            sections_wf(sections@),
            i <= first_overflow_from(sections@, 0),
            first_overflow_from(sections@, 0) <= n,
            forall|j: int| 0 <= j < first_overflow_from(sections@, 0) ==> !section_overflows(
                sections@[j],
            ),
            first_overflow_from(sections@, 0) < n ==> section_overflows(
                sections@[first_overflow_from(sections@, 0)],
            ),
            per_stream_steps(steps@, sections@, targets@, i as int),
        decreases n - i,
    {
        let section = &sections[i];
        proof {
            assert(section_wf(sections@[i as int].blocks@));
        }
        let plan = plan_section(section);
        let ghost old_steps = steps@;
        match plan {
            Err(PlanError::VersionOverflow) => {
                proof {
                    assert(i == first_overflow_from(sections@, 0));
                }
                return PerStreamPlan { steps, overflow: true };
            },
            Ok(SectionPlan::Empty) => {},
            Ok(SectionPlan::FirstCorrupt) => {
                steps.push(
                    PerStreamStep::Report(
                        StreamReport {
                            stream: targets[i].duplicate(),
                            outcome: StreamOutcome::Corrupt { reached: None },
                        },
                    ),
                );
            },
            Ok(SectionPlan::Run { first, expected_version, events, last, halt }) => {
                let write = PlannedAppend { target: targets[i].duplicate(), expected_version, events };
                steps.push(PerStreamStep::Append { write, first, last, halt });
            },
        }
        proof {
            let idx_old = nonempty_indices(sections@, i as int);
            let idx_new = nonempty_indices(sections@, i + 1);
            if sections@[i as int].blocks@.len() > 0 {
                assert(idx_new == idx_old.push(i as int));
                assert forall|j: int| 0 <= j < steps@.len() implies step_for(
                    #[trigger] steps@[j],
                    sections@[idx_new[j]],
                    targets@[idx_new[j]],
                ) by {
                    if j < old_steps.len() {
                        assert(steps@[j] == old_steps[j]);
                    }
                }
            } else {
                assert(idx_new == idx_old);
            }
            if i + 1 <= first_overflow_from(sections@, 0) {
            } else {
                assert(false);
            }
        }
        i = i + 1;
    }
    PerStreamPlan { steps, overflow: false }
}

/// The outcome of one appended run, for every answer the store can give.
pub open spec fn run_outcome_spec(first: Version, last: Version, halt: Halt, applied: bool) -> StreamOutcome {
    if applied {
        match halt {
            Halt::Complete => StreamOutcome::Complete { version: last },
            Halt::Corrupt => StreamOutcome::Corrupt { reached: Some(last) },
            Halt::Gap { got } => StreamOutcome::Mismatch { reached: Some(last), got },
        }
    } else {
        StreamOutcome::Mismatch { reached: None, got: first }
    }
}

/// Settle one per-stream append: the stream's outcome, or the store error
/// that stops the import (earlier sections stay committed).
pub fn settle_run<E>(first: Version, last: Version, halt: Halt, result: Result<(), AppendError<E>>) -> (r:
    Result<StreamOutcome, ImportError<E>>)
    ensures
        match result {
            Ok(()) => r == Ok::<StreamOutcome, ImportError<E>>(
                run_outcome_spec(first, last, halt, true),
            ),
            Err(AppendError::Conflict { .. }) => r == Ok::<StreamOutcome, ImportError<E>>(
                run_outcome_spec(first, last, halt, false),
            ),
            Err(AppendError::Store(e)) => r == Err::<StreamOutcome, ImportError<E>>(
                ImportError::Store(e),
            ),
        },
{
    match result {
        Ok(()) => Ok(
            match halt {
                Halt::Complete => StreamOutcome::Complete { version: last },
                Halt::Corrupt => StreamOutcome::Corrupt { reached: Some(last) },
                Halt::Gap { got } => StreamOutcome::Mismatch { reached: Some(last), got },
            },
        ),
        Err(AppendError::Conflict { .. }) => Ok(StreamOutcome::Mismatch { reached: None, got: first }),
        Err(AppendError::Store(e)) => Err(ImportError::Store(e)),
    }
}

/// A per-stream import reports what landed. For any answer the store gives
/// to a run's append, the stream is reported `Complete` exactly when the
/// append landed and the run consumed every block of its section; a run
/// that landed but stopped at a corrupt block or a version gap reports that
/// halt with the run's last version reached; a refused append reports a
/// mismatch at the run's first version with nothing reached; an adapter
/// failure stops the import.
pub proof fn lemma_settle_run_reports_what_landed<E>(
    first: Version,
    last: Version,
    halt: Halt,
    result: Result<(), AppendError<E>>,
    r: Result<StreamOutcome, ImportError<E>>,
)
    requires
        match result {
            Ok(()) => r == Ok::<StreamOutcome, ImportError<E>>(
                run_outcome_spec(first, last, halt, true),
            ),
            Err(AppendError::Conflict { .. }) => r == Ok::<StreamOutcome, ImportError<E>>(
                run_outcome_spec(first, last, halt, false),
            ),
            Err(AppendError::Store(e)) => r == Err::<StreamOutcome, ImportError<E>>(
                ImportError::Store(e),
            ),
        },
    ensures
        (r matches Ok(o) && o is Complete) <==> (result is Ok && halt == Halt::Complete),
        result is Ok && halt == Halt::Complete ==> r == Ok::<StreamOutcome, ImportError<E>>(
            StreamOutcome::Complete { version: last },
        ),
        result is Ok && halt == Halt::Corrupt ==> r == Ok::<StreamOutcome, ImportError<E>>(
            StreamOutcome::Corrupt { reached: Some(last) },
        ),
        result is Ok && halt is Gap ==> r == Ok::<StreamOutcome, ImportError<E>>(
            StreamOutcome::Mismatch { reached: Some(last), got: halt->got },
        ),
        result is Ok ==> (r matches Ok(o) && o.spec_reached() == Some(last)),
        result matches Err(AppendError::Conflict { .. }) ==> r == Ok::<StreamOutcome, ImportError<E>>(
            StreamOutcome::Mismatch { reached: None, got: first },
        ),
        result matches Err(AppendError::Store(e)) ==> r == Err::<StreamOutcome, ImportError<E>>(
            ImportError::Store(e),
        ),
{
}

/// A stream whose events carry the versions 1, 2, ..., n, in order.
pub open spec fn gapless(versions: Seq<u64>) -> bool {
    forall|i: int| 0 <= i < versions.len() ==> #[trigger] versions[i] == i + 1
}

/// The head a store reports for a stream holding `versions`.
pub open spec fn head_of(versions: Seq<u64>) -> Option<Version> {
    if versions.len() == 0 {
        None
    } else {
        Some(Version::of(versions.last()))
    }
}

/// The versions of a run's events, in order.
pub open spec fn event_versions(events: Seq<PendingEnvelope>) -> Seq<u64> {
    events.map_values(|e: PendingEnvelope| e.spec_version().spec_u64())
}

/// What a stream holds after `write` is offered to a store that appends a
/// run exactly when it expects the stream's current head.
pub open spec fn after_append(versions: Seq<u64>, write: PlannedAppend) -> Seq<u64> {
    if write.expected_version == head_of(versions) {
        versions + event_versions(write.events@)
    } else {
        versions
    }
}

proof fn lemma_run_versions(blocks: Seq<ImportBlock>, j: int)
    requires
        blocks.len() > 0,
        blocks[0] is Event,
        0 <= j < run_end(blocks),
    ensures
        block_ver(blocks[j]) == block_ver(blocks[0]) + j,
    decreases j,
{
    lemma_run_from(blocks, 1);
    if j > 0 {
        lemma_run_versions(blocks, j - 1);
        assert(continues(blocks, j));
    }
}

/// Per-stream import never punches a gap nor repeats a version: offered to
/// a store that appends a run exactly when the run expects the stream's
/// head, a section's planned run lands exactly when its first version is
/// the stream's next one, and then the stream holds 1 ..= the run's last
/// version; otherwise the stream is left as it was. So a stream holding
/// 1 ..= n stays a gapless, duplicate-free prefix after any sequence of
/// imports.
pub proof fn lemma_import_keeps_stream_gapless(
    versions: Seq<u64>,
    section: StreamSection,
    target: StreamKey,
    write: PlannedAppend,
    first: Version,
    last: Version,
    halt: Halt,
)
    requires
        gapless(versions),
        section_wf(section.blocks@),
        section.blocks@.len() > 0,
        section.blocks@[0] is Event,
        write_for(write, first, last, halt, section, target),
    ensures
        (write.expected_version == head_of(versions)) == (first.spec_u64() == versions.len() + 1),
        write.expected_version == head_of(versions) ==> after_append(versions, write).len()
            == last.spec_u64(),
        write.expected_version != head_of(versions) ==> after_append(versions, write) == versions,
        gapless(after_append(versions, write)),
{
    broadcast use crate::version::group_positions;
    let blocks = section.blocks@;
    let k = run_end(blocks);
    lemma_run_from(blocks, 1);
    assert(section_wf(blocks));
    assert(blocks[0] is Event);
    block_event(blocks[0]).lemma_wf();
    let f = first.spec_u64() as int;
    assert(f >= 1);
    if versions.len() > 0 {
        assert(versions[versions.len() - 1] == versions.len());
    }
    if f <= 1 {
        assert(write.expected_version is None);
    } else {
        assert(write.expected_version == Some(Version::of((f - 1) as u64)));
    }
    let ev = event_versions(write.events@);
    assert forall|j: int| 0 <= j < k implies #[trigger] ev[j] == f + j by {
        lemma_run_versions(blocks, j);
        assert(pending_matches(write.events@[j], block_event(blocks[j])));
    }
    if versions.len() > 0 {
        let h = Version::of(versions.last());
        assert(h.spec_u64() == versions.len());
        if f > 1 {
            assert(Version::of((f - 1) as u64).spec_u64() == f - 1);
        }
    }
    if write.expected_version == head_of(versions) {
        assert(f == versions.len() + 1);
        let after = versions + ev;
        assert forall|i: int| 0 <= i < after.len() implies #[trigger] after[i] == i + 1 by {
            if i >= versions.len() {
                assert(after[i] == ev[i - versions.len()]);
            }
        }
        assert(ev[k - 1] == f + k - 1);
        assert(pending_matches(write.events@[k - 1], block_event(blocks[k - 1])));
    }
}

} // verus!

verus! {

// =============================================================================
// Whole-chunk import: plan all-or-nothing, then settle the transaction
// =============================================================================

/// The first section of a whole chunk that aborts it while planning: its
/// target, where its run starts when its first block is an event (the run's
/// first version and the head it expects; that head is checked before the
/// halt, which comes later in block order), and why it aborts (`None` = a
/// version overflow).
#[derive(Debug)]
pub struct ChunkHalt {
    pub target: StreamKey,
    pub start: Option<(Version, Option<Version>)>,
    pub reason: Option<AbortReason>,
}

/// A whole-chunk plan: the writes of the clean sections before the first
/// aborting section, with each run's first and last version (parallel
/// vectors, one entry per non-empty section), and that section's halt, if
/// there is one.
#[derive(Debug)]
pub struct WholeChunkPlan {
    pub writes: Vec<PlannedAppend>,
    pub firsts: Vec<Version>,
    pub lasts: Vec<Version>,
    pub halt: Option<ChunkHalt>,
}

/// A section that aborts a whole-chunk import.
pub open spec fn section_bad(s: StreamSection) -> bool {
    s.blocks@.len() > 0 && (s.blocks@[0] is Corrupt || overflows(s.blocks@) || halt_of(s.blocks@)
        != Halt::Complete)
}

/// The first aborting section from `i` on (`len` if none).
pub open spec fn first_bad_from(sections: Seq<StreamSection>, i: int) -> int
    decreases sections.len() - i,
{
    if i < 0 || i >= sections.len() {
        sections.len() as int
    } else if section_bad(sections[i]) {
        i
    } else {
        first_bad_from(sections, i + 1)
    }
}

/// The halt an aborting section plans to.
pub open spec fn halt_spec(s: StreamSection, target: StreamKey, h: ChunkHalt) -> bool {
    let blocks = s.blocks@;
    let k = run_end(blocks);
    let first = block_event(blocks[0]).spec_version();
    &&& h.target@ == target@
    &&& if blocks[0] is Corrupt {
        h.start is None && h.reason == Some(AbortReason::Corrupt)
    } else {
        &&& h.start == Some((first, head_before(first)))
        &&& if overflows(blocks) {
            h.reason is None
        } else if halt_of(blocks) == Halt::Corrupt {
            h.reason == Some(AbortReason::Corrupt)
        } else {
            h.reason == Some(
                AbortReason::Mismatch {
                    expected: Version::of((block_ver(blocks[k - 1]) + 1) as u64),
                    got: block_event(blocks[k]).spec_version(),
                },
            )
        }
    }
}

/// The writes planned for the first `upto` sections (all clean).
pub open spec fn whole_chunk_writes(
    p: WholeChunkPlan,
    sections: Seq<StreamSection>,
    targets: Seq<StreamKey>,
    upto: int,
) -> bool {
    let idx = nonempty_indices(sections, upto);
    &&& p.writes@.len() == idx.len()
    &&& p.firsts@.len() == idx.len()
    &&& p.lasts@.len() == idx.len()
    &&& forall|j: int|
        0 <= j < idx.len() ==> write_for(
            #[trigger] p.writes@[j],
            p.firsts@[j],
            p.lasts@[j],
            Halt::Complete,
            sections[idx[j]],
            targets[idx[j]],
        )
}

proof fn lemma_first_bad(sections: Seq<StreamSection>, i: int)
    requires
        0 <= i <= sections.len(),
    ensures
        i <= first_bad_from(sections, i) <= sections.len(),
        forall|j: int| i <= j < first_bad_from(sections, i) ==> !section_bad(sections[j]),
        first_bad_from(sections, i) < sections.len() ==> section_bad(
            sections[first_bad_from(sections, i)],
        ),
    decreases sections.len() - i,
{
    if i < sections.len() && !section_bad(sections[i]) {
        lemma_first_bad(sections, i + 1);
    }
}

/// What [`plan_whole_chunk`] plans for `sections` routed to `targets`: the
/// writes of the sections before the first aborting one, and that
/// section's halt (none when no section aborts).
pub open spec fn plan_chunk_spec(
    sections: Seq<StreamSection>,
    targets: Seq<StreamKey>,
    p: WholeChunkPlan,
) -> bool {
    let b = first_bad_from(sections, 0);
    &&& whole_chunk_writes(p, sections, targets, b)
    &&& b < sections.len() ==> (p.halt matches Some(h) && halt_spec(sections[b], targets[b], h))
    &&& b == sections.len() ==> p.halt is None
}

/// Plan a whole-chunk import: the runs of the clean sections, in section
/// order, up to the first section that aborts the chunk (a corrupt block, an
/// internal gap, or a version overflow), whose halt is recorded instead.
/// Empty sections are skipped. Nothing is written when there is a halt;
/// which offender wins — a head conflict of an earlier run, or of the
/// halting section's own first block, or the halt — is decided by
/// [`settle_halted_chunk`] from the heads the store reports.
pub fn plan_whole_chunk(sections: &[StreamSection], targets: &[StreamKey]) -> (p: WholeChunkPlan)
    requires
        sections@.len() == targets@.len(),
        sections_wf(sections@),
    ensures
        plan_chunk_spec(sections@, targets@, p),
{
    let n = sections.len();
    let mut plan = WholeChunkPlan {
        writes: Vec::new(),
        firsts: Vec::new(),
        lasts: Vec::new(),
        halt: None,
    };
    let mut i: usize = 0;
    proof {
        lemma_first_bad(sections@, 0);
    }
    while i < n
        invariant
            n == sections@.len(),
            n == targets@.len(),
            sections_wf(sections@),
            i <= first_bad_from(sections@, 0),
            first_bad_from(sections@, 0) <= n,
            forall|j: int| 0 <= j < first_bad_from(sections@, 0) ==> !section_bad(sections@[j]),
            first_bad_from(sections@, 0) < n ==> section_bad(
                sections@[first_bad_from(sections@, 0)],
            ),
            whole_chunk_writes(plan, sections@, targets@, i as int),
            plan.halt is None,
        decreases n - i,
    {
        let section = &sections[i];
        proof {
            assert(section_wf(sections@[i as int].blocks@));
        }
        let ghost old_plan = plan;
        let target = targets[i].duplicate();
        match plan_section(section) {
            Err(PlanError::VersionOverflow) => {
                proof {
                    assert(section_bad(sections@[i as int]));
                    assert(i == first_bad_from(sections@, 0));
                }
                let first = match &section.blocks[0] {
                    ImportBlock::Event(e) => e.version(),
                    ImportBlock::Corrupt => Version::initial(),
                };
                let expected = if first.as_u64() <= 1 {
                    None
                } else {
                    Version::new(first.as_u64() - 1)
                };
                plan.halt = Some(ChunkHalt { target, start: Some((first, expected)), reason: None });
                return plan;
            },
            Ok(SectionPlan::Empty) => {},
            Ok(SectionPlan::FirstCorrupt) => {
                proof {
                    assert(section_bad(sections@[i as int]));
                    assert(i == first_bad_from(sections@, 0));
                }
                plan.halt = Some(
                    ChunkHalt { target, start: None, reason: Some(AbortReason::Corrupt) },
                );
                return plan;
            },
            Ok(SectionPlan::Run { first, expected_version, events, last, halt }) => {
                match halt {
                    Halt::Complete => {},
                    Halt::Corrupt => {
                        proof {
                            assert(section_bad(sections@[i as int]));
                            assert(i == first_bad_from(sections@, 0));
                        }
                        plan.halt = Some(
                            ChunkHalt {
                                target,
                                start: Some((first, expected_version)),
                                reason: Some(AbortReason::Corrupt),
                            },
                        );
                        return plan;
                    },
                    Halt::Gap { got } => {
                        proof {
                            assert(section_bad(sections@[i as int]));
                            assert(i == first_bad_from(sections@, 0));
                        }
                        let reason = match last.next() {
                            Some(expected) => Some(AbortReason::Mismatch { expected, got }),
                            None => None,
                        };
                        plan.halt = Some(
                            ChunkHalt { target, start: Some((first, expected_version)), reason },
                        );
                        return plan;
                    },
                }
                plan.firsts.push(first);
                plan.lasts.push(last);
                plan.writes.push(PlannedAppend { target, expected_version, events });
            },
        }
        proof {
            let idx_old = nonempty_indices(sections@, i as int);
            let idx_new = nonempty_indices(sections@, i + 1);
            if sections@[i as int].blocks@.len() > 0 {
                assert(idx_new == idx_old.push(i as int));
                assert forall|j: int| 0 <= j < idx_new.len() implies write_for(
                    #[trigger] plan.writes@[j],
                    plan.firsts@[j],
                    plan.lasts@[j],
                    Halt::Complete,
                    sections@[idx_new[j]],
                    targets@[idx_new[j]],
                ) by {
                    if j < idx_old.len() {
                        assert(plan.writes@[j] == old_plan.writes@[j]);
                        assert(plan.firsts@[j] == old_plan.firsts@[j]);
                        assert(plan.lasts@[j] == old_plan.lasts@[j]);
                    }
                }
            } else {
                assert(idx_new == idx_old);
            }
            if i + 1 <= first_bad_from(sections@, 0) {
            } else {
                assert(false);
            }
        }
        i = i + 1;
    }
    plan
}

/// The first planned write, from `j` on, whose stream's head is not the
/// head the write expects (`len` if none).
pub open spec fn first_conflict(writes: Seq<PlannedAppend>, heads: Seq<Option<Version>>, j: int) -> int
    decreases writes.len() - j,
{
    if j < 0 || j >= writes.len() {
        writes.len() as int
    } else if heads[j] != writes[j].expected_version {
        j
    } else {
        first_conflict(writes, heads, j + 1)
    }
}

proof fn lemma_first_conflict(writes: Seq<PlannedAppend>, heads: Seq<Option<Version>>, j: int)
    requires
        0 <= j <= writes.len(),
    ensures
        j <= first_conflict(writes, heads, j) <= writes.len(),
        forall|i: int| j <= i < first_conflict(writes, heads, j) ==> heads[i] == writes[i].expected_version,
        first_conflict(writes, heads, j) < writes.len() ==> heads[first_conflict(writes, heads, j)]
            != writes[first_conflict(writes, heads, j)].expected_version,
    decreases writes.len() - j,
{
    if j < writes.len() && heads[j] == writes[j].expected_version {
        lemma_first_conflict(writes, heads, j + 1);
    }
}

/// The error of a run whose first version is `got`, aimed at `target`,
/// finding the stream's head at `actual`: a mismatch against the head's
/// successor (1 for an empty stream), or an overflow when the head is at
/// `u64::MAX`.
pub open spec fn conflict_spec<E>(target: StreamKey, actual: Option<Version>, got: Version, r: ImportError<E>) -> bool {
    match actual {
        Some(head) => if head.spec_u64() == u64::MAX {
            r is VersionOverflow
        } else {
            r matches ImportError::Aborted { stream, reason } && stream@ == target@ && reason
                == AbortReason::Mismatch { expected: Version::of((head.spec_u64() + 1) as u64), got }
        },
        None => r matches ImportError::Aborted { stream, reason } && stream@ == target@ && reason
            == AbortReason::Mismatch { expected: Version::of(1), got },
    }
}

fn conflict_error<E>(target: &StreamKey, actual: Option<Version>, got: Version) -> (r: ImportError<E>)
    ensures
        conflict_spec(*target, actual, got, r),
{
    match actual {
        Some(head) => match head.next() {
            Some(expected) => ImportError::Aborted {
                stream: target.duplicate(),
                reason: AbortReason::Mismatch { expected, got },
            },
            None => ImportError::VersionOverflow,
        },
        None => ImportError::Aborted {
            stream: target.duplicate(),
            reason: AbortReason::Mismatch { expected: Version::initial(), got },
        },
    }
}

/// Settle a whole-chunk import that planning halted; nothing is written.
/// `heads` are the current heads of the planned writes' streams, and
/// `halt_head` that of the halting section's stream. The first offender in
/// section order, then block order, wins: the first planned write whose
/// head is not the one it expects; else the halting section's first block,
/// if its stream's head is not the one its run expects; else the halt.
pub fn settle_halted_chunk<E>(plan: &WholeChunkPlan, heads: &[Option<Version>], halt_head: Option<Version>) -> (r: ImportError<E>)
    requires
        plan.halt is Some,
        plan.writes@.len() == plan.firsts@.len(),
        heads@.len() == plan.writes@.len(),
    ensures
        ({
            let c = first_conflict(plan.writes@, heads@, 0);
            let h = plan.halt->0;
            if c < plan.writes@.len() {
                conflict_spec(plan.writes@[c].target, heads@[c], plan.firsts@[c], r)
            } else {
                match h.start {
                    Some((first, expected)) if halt_head != expected => conflict_spec(
                        h.target,
                        halt_head,
                        first,
                        r,
                    ),
                    _ => match h.reason {
                        Some(reason) => r matches ImportError::Aborted { stream, reason: why }
                            && stream@ == h.target@ && why == reason,
                        None => r is VersionOverflow,
                    },
                }
            }
        }),
{
    let mut j: usize = 0;
    proof {
        lemma_first_conflict(plan.writes@, heads@, 0);
    }
    while j < plan.writes.len()
        invariant
            j <= plan.writes@.len(),
            heads@.len() == plan.writes@.len(),
            plan.writes@.len() == plan.firsts@.len(),
            j <= first_conflict(plan.writes@, heads@, 0) <= plan.writes@.len(),
            forall|i: int| 0 <= i < first_conflict(plan.writes@, heads@, 0) ==> heads@[i]
                == plan.writes@[i].expected_version,
            first_conflict(plan.writes@, heads@, 0) < plan.writes@.len() ==> heads@[first_conflict(
                plan.writes@,
                heads@,
                0,
            )] != plan.writes@[first_conflict(plan.writes@, heads@, 0)].expected_version,
        decreases plan.writes@.len() - j,
    {
        if !opt_version_eq(heads[j], plan.writes[j].expected_version) {
            return conflict_error(&plan.writes[j].target, heads[j], plan.firsts[j]);
        }
        j = j + 1;
    }
    match &plan.halt {
        Some(h) => {
            if let Some((first, expected)) = h.start {
                if !opt_version_eq(halt_head, expected) {
                    return conflict_error(&h.target, halt_head, first);
                }
            }
            match h.reason {
                Some(reason) => ImportError::Aborted { stream: h.target.duplicate(), reason },
                None => ImportError::VersionOverflow,
            }
        },
        None => ImportError::VersionOverflow,
    }
}

/// Whether two optional versions are equal.
fn opt_version_eq(a: Option<Version>, b: Option<Version>) -> (r: bool)
    ensures
        r == (a == b),
{
    match (a, b) {
        (Some(x), Some(y)) => x.as_u64() == y.as_u64(),
        (None, None) => true,
        _ => false,
    }
}

/// What [`settle_whole_chunk`] answers for `plan` and the transaction's
/// `result`: on success one `Complete` report per planned write, in order,
/// at its run's last version; on a head conflict at write `index`, an abort
/// of that write's stream with the head's successor as the expected version
/// and the run's first version as the one got (an overflow when the head is
/// at `u64::MAX`); a store error passes through.
pub open spec fn settle_chunk_spec<E>(
    plan: WholeChunkPlan,
    result: Result<(), AtomicAppendError<E>>,
    r: Result<ImportReport, ImportError<E>>,
) -> bool {
    match result {
        Ok(()) => r matches Ok(rep) && rep.spec_streams().len() == plan.writes@.len() && (forall|
            j: int,
        |
            0 <= j < plan.writes@.len() ==> (#[trigger] rep.spec_streams()[j]).stream@
                == plan.writes@[j].target@ && rep.spec_streams()[j].outcome
                == StreamOutcome::Complete { version: plan.lasts@[j] }),
        Err(AtomicAppendError::Conflict { index, actual }) => match actual {
            Some(head) => if head.spec_u64() == u64::MAX {
                r matches Err(ImportError::VersionOverflow)
            } else {
                r matches Err(ImportError::Aborted { stream, reason }) && stream@
                    == plan.writes@[index as int].target@ && reason == AbortReason::Mismatch {
                    expected: Version::of((head.spec_u64() + 1) as u64),
                    got: plan.firsts@[index as int],
                }
            },
            None => r matches Err(ImportError::Aborted { stream, reason }) && stream@
                == plan.writes@[index as int].target@ && reason == AbortReason::Mismatch {
                expected: Version::of(1),
                got: plan.firsts@[index as int],
            },
        },
        Err(AtomicAppendError::Store(e)) => r == Err::<ImportReport, ImportError<E>>(
            ImportError::Store(e),
        ),
    }
}

/// Settle the one transaction of a whole-chunk import, as
/// [`settle_chunk_spec`] states.
pub fn settle_whole_chunk<E>(plan: WholeChunkPlan, result: Result<(), AtomicAppendError<E>>) -> (r:
    Result<ImportReport, ImportError<E>>)
    requires
        plan.writes@.len() == plan.firsts@.len(),
        plan.writes@.len() == plan.lasts@.len(),
        result matches Err(AtomicAppendError::Conflict { index, .. }) ==> index < plan.writes@.len(),
    ensures
        settle_chunk_spec(plan, result, r),
{
    match result {
        Ok(()) => {
            let mut reports: Vec<StreamReport> = Vec::new();
            let mut i: usize = 0;
            while i < plan.writes.len()
                invariant
                    i <= plan.writes@.len(),
                    plan.writes@.len() == plan.lasts@.len(),
                    reports@.len() == i,
                    forall|j: int|
                        0 <= j < i ==> (#[trigger] reports@[j]).stream@ == plan.writes@[j].target@
                            && reports@[j].outcome == (StreamOutcome::Complete {
                            version: plan.lasts@[j],
                        }),
                decreases plan.writes@.len() - i,
            {
                reports.push(
                    StreamReport {
                        stream: plan.writes[i].target.duplicate(),
                        outcome: StreamOutcome::Complete { version: plan.lasts[i] },
                    },
                );
                i = i + 1;
            }
            Ok(ImportReport::new(reports))
        },
        Err(AtomicAppendError::Conflict { index, actual }) => {
            let got = plan.firsts[index];
            let stream = plan.writes[index].target.duplicate();
            let expected = match actual {
                Some(head) => match head.next() {
                    Some(v) => v,
                    None => {
                        return Err(ImportError::VersionOverflow);
                    },
                },
                None => Version::initial(),
            };
            Err(ImportError::Aborted { stream, reason: AbortReason::Mismatch { expected, got } })
        },
        Err(AtomicAppendError::Store(e)) => Err(ImportError::Store(e)),
    }
}


// =============================================================================
// Whole-chunk import against a store
// =============================================================================

/// A stream's events in a store's contents, by stream key (a stream that
/// is not there is empty).
pub open spec fn stream_in(store: Map<Seq<u8>, Seq<PendingEnvelope>>, key: Seq<u8>) -> Seq<PendingEnvelope> {
    if store.dom().contains(key) {
        store[key]
    } else {
        Seq::empty()
    }
}

/// The head of a stream holding `events` (`None` = empty).
pub open spec fn events_head(events: Seq<PendingEnvelope>) -> Option<Version> {
    if events.len() == 0 {
        None
    } else {
        Some(events.last().spec_version())
    }
}

/// `store` with the first `j` writes appended in turn, each to its
/// target's events.
pub open spec fn append_upto(
    store: Map<Seq<u8>, Seq<PendingEnvelope>>,
    writes: Seq<PlannedAppend>,
    j: int,
) -> Map<Seq<u8>, Seq<PendingEnvelope>>
    decreases j,
{
    if j <= 0 || j > writes.len() {
        store
    } else {
        let before = append_upto(store, writes, j - 1);
        let key = writes[j - 1].target@;
        before.insert(key, stream_in(before, key) + writes[j - 1].events@)
    }
}

/// The head write `j` finds: its target's head once the writes before it
/// have been appended.
pub open spec fn running_head(
    store: Map<Seq<u8>, Seq<PendingEnvelope>>,
    writes: Seq<PlannedAppend>,
    j: int,
) -> Option<Version> {
    events_head(stream_in(append_upto(store, writes, j), writes[j].target@))
}

/// The first write, from `j` on, that does not find the head it expects
/// (`len` if none).
pub open spec fn first_stale(
    store: Map<Seq<u8>, Seq<PendingEnvelope>>,
    writes: Seq<PlannedAppend>,
    j: int,
) -> int
    decreases writes.len() - j,
{
    if j < 0 || j >= writes.len() {
        writes.len() as int
    } else if writes[j].expected_version != running_head(store, writes, j) {
        j
    } else {
        first_stale(store, writes, j + 1)
    }
}

/// `result` is what an adapter holding `store` answers to an all-or-nothing
/// append of `writes`, each checked against its stream's running head:
/// success exactly when every write finds the head it expects; else a
/// conflict at the first write that does not, with the head it found; or
/// an adapter failure.
pub open spec fn atomic_answer<E>(
    store: Map<Seq<u8>, Seq<PendingEnvelope>>,
    writes: Seq<PlannedAppend>,
    result: Result<(), AtomicAppendError<E>>,
) -> bool {
    match result {
        Ok(()) => first_stale(store, writes, 0) == writes.len(),
        Err(AtomicAppendError::Conflict { index, actual }) => index == first_stale(store, writes, 0)
            && index < writes.len() && actual == running_head(store, writes, index as int),
        Err(AtomicAppendError::Store(_)) => true,
    }
}

/// What such an adapter holds afterwards: every write appended when the
/// transaction succeeded, and nothing changed when it failed.
pub open spec fn after_atomic<E>(
    store: Map<Seq<u8>, Seq<PendingEnvelope>>,
    writes: Seq<PlannedAppend>,
    result: Result<(), AtomicAppendError<E>>,
) -> Map<Seq<u8>, Seq<PendingEnvelope>> {
    if result is Ok {
        append_upto(store, writes, writes.len() as int)
    } else {
        store
    }
}

/// A whole-chunk import is all or nothing. A halted plan never reaches the
/// store ([`settle_halted_chunk`] only ever answers an error). For a plan
/// that reaches it, against an adapter that keeps the all-or-nothing
/// contract: when the import answers an error, every stream holds what it
/// held before, clean runs included; when it answers a report, the one
/// transaction landed every planned write. A head conflict is reported on
/// the first write, in order, that did not find the head it expects.
pub proof fn lemma_whole_chunk_all_or_nothing<E>(
    store: Map<Seq<u8>, Seq<PendingEnvelope>>,
    plan: WholeChunkPlan,
    result: Result<(), AtomicAppendError<E>>,
    r: Result<ImportReport, ImportError<E>>,
)
    requires
        plan.writes@.len() == plan.firsts@.len(),
        plan.writes@.len() == plan.lasts@.len(),
        atomic_answer(store, plan.writes@, result),
        settle_chunk_spec(plan, result, r),
    ensures
        r is Err ==> after_atomic(store, plan.writes@, result) == store,
        r is Ok ==> result is Ok && after_atomic(store, plan.writes@, result) == append_upto(
            store,
            plan.writes@,
            plan.writes@.len() as int,
        ),
        r matches Err(ImportError::Aborted { stream, .. }) ==> result matches Err(AtomicAppendError::Conflict { .. })
            && first_stale(store, plan.writes@, 0) < plan.writes@.len() && stream@
            == plan.writes@[first_stale(store, plan.writes@, 0)].target@,
{
}

/// A non-empty section that a whole chunk accepts: every block an event,
/// with consecutive versions.
pub open spec fn section_clean(s: StreamSection) -> bool {
    let blocks = s.blocks@;
    forall|k: int|
        0 <= k < blocks.len() ==> (#[trigger] blocks[k]) is Event && block_ver(blocks[k])
            == block_ver(blocks[0]) + k
}

proof fn lemma_nonempty_indices(sections: Seq<StreamSection>, m: int)
    requires
        0 <= m <= sections.len(),
    ensures
        forall|j: int|
            0 <= j < nonempty_indices(sections, m).len() ==> 0 <= #[trigger] nonempty_indices(
                sections,
                m,
            )[j] < m && sections[nonempty_indices(sections, m)[j]].blocks@.len() > 0,
    decreases m,
{
    if m > 0 {
        lemma_nonempty_indices(sections, m - 1);
        let rest = nonempty_indices(sections, m - 1);
        if sections[m - 1].blocks@.len() > 0 {
            assert(nonempty_indices(sections, m) == rest.push(m - 1));
        }
    }
}

/// A successful whole-chunk import landed every non-empty section, whole.
/// Against an adapter that keeps the all-or-nothing contract, when the
/// import of a plan that did not halt answers a report: every non-empty
/// section is clean (all events, consecutive versions); the report has one
/// entry per non-empty section, in section order (empty sections get
/// none), naming the section's routed stream as complete at its last
/// block's version; the planned writes carry exactly those sections' events
/// to those streams; and the store holds its former contents with each of
/// those writes appended in turn.
pub proof fn lemma_whole_chunk_success<E>(
    sections: Seq<StreamSection>,
    targets: Seq<StreamKey>,
    store: Map<Seq<u8>, Seq<PendingEnvelope>>,
    plan: WholeChunkPlan,
    result: Result<(), AtomicAppendError<E>>,
    r: Result<ImportReport, ImportError<E>>,
)
    requires
        sections.len() == targets.len(),
        sections_wf(sections),
        plan_chunk_spec(sections, targets, plan),
        plan.halt is None,
        atomic_answer(store, plan.writes@, result),
        settle_chunk_spec(plan, result, r),
        r is Ok,
    ensures
        forall|i: int|
            0 <= i < sections.len() && (#[trigger] sections[i]).blocks@.len() > 0 ==> section_clean(
                sections[i],
            ),
        ({
            let idx = nonempty_indices(sections, sections.len() as int);
            &&& plan.writes@.len() == idx.len()
            &&& r matches Ok(rep) && rep.spec_streams().len() == idx.len() && forall|j: int|
                0 <= j < idx.len() ==> (#[trigger] rep.spec_streams()[j]).stream@ == targets[idx[j]]@
                    && rep.spec_streams()[j].outcome == StreamOutcome::Complete {
                    version: block_event(sections[idx[j]].blocks@.last()).spec_version(),
                }
            &&& forall|j: int|
                0 <= j < idx.len() ==> (#[trigger] plan.writes@[j]).target@ == targets[idx[j]]@
                    && run_events(
                    plan.writes@[j].events@,
                    sections[idx[j]].blocks@,
                    sections[idx[j]].blocks@.len() as int,
                )
            &&& after_atomic(store, plan.writes@, result) == append_upto(
                store,
                plan.writes@,
                idx.len() as int,
            )
        }),
{
    let n = sections.len() as int;
    let idx = nonempty_indices(sections, n);
    lemma_first_bad(sections, 0);
    assert(first_bad_from(sections, 0) == n);
    lemma_nonempty_indices(sections, n);
    assert forall|i: int|
        0 <= i < sections.len() && (#[trigger] sections[i]).blocks@.len() > 0 implies section_clean(
        sections[i],
    ) by {
        let blocks = sections[i].blocks@;
        assert(!section_bad(sections[i]));
        lemma_run_from(blocks, 1);
        assert(run_end(blocks) == blocks.len());
        assert forall|k: int| 0 <= k < blocks.len() implies (#[trigger] blocks[k]) is Event
            && block_ver(blocks[k]) == block_ver(blocks[0]) + k by {
            lemma_run_versions(blocks, k);
            if k > 0 {
                assert(continues(blocks, k));
            }
        }
    }
    assert forall|j: int| 0 <= j < idx.len() implies (#[trigger] plan.writes@[j]).target@
        == targets[idx[j]]@ && run_events(
        plan.writes@[j].events@,
        sections[idx[j]].blocks@,
        sections[idx[j]].blocks@.len() as int,
    ) && plan.lasts@[j] == block_event(sections[idx[j]].blocks@.last()).spec_version() by {
        let blocks = sections[idx[j]].blocks@;
        assert(write_for(
            plan.writes@[j],
            plan.firsts@[j],
            plan.lasts@[j],
            Halt::Complete,
            sections[idx[j]],
            targets[idx[j]],
        ));
        lemma_run_from(blocks, 1);
        assert(run_end(blocks) == blocks.len());
    }
    match result {
        Ok(()) => {},
        Err(AtomicAppendError::Conflict { index, actual }) => {
            assert(r is Err);
        },
        Err(AtomicAppendError::Store(e)) => {
            assert(r is Err);
        },
    }
    let rep = r->Ok_0;
    assert forall|j: int| 0 <= j < idx.len() implies (#[trigger] rep.spec_streams()[j]).stream@
        == targets[idx[j]]@ && rep.spec_streams()[j].outcome == StreamOutcome::Complete {
        version: block_event(sections[idx[j]].blocks@.last()).spec_version(),
    } by {
        assert(plan.writes@[j].target@ == targets[idx[j]]@);
    }
}

} // verus!
