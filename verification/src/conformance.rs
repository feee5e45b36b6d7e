//! The row shape the adapter conformance suite compares, the ordering
//! check it applies to global positions, and the decisions of its
//! multi-resume read: how many items a cycle takes, where it reopens, when
//! it stops, and what the gathered rows must agree with.
use vstd::prelude::*;

verus! {

/// One event as the conformance suite sees it; every field must
/// round-trip byte for byte through an adapter.
#[derive(Debug, Clone, PartialEq, Eq)]
pub struct ConformanceRow {
    pub version: u64,
    pub event_type: String,
    pub schema_version: u32,
    pub payload: Vec<u8>,
}

impl ConformanceRow {
    /// A row with schema version 1.
    pub fn new(version: u64, event_type: &str, payload: Vec<u8>) -> (r: ConformanceRow)
        ensures
            r.version == version,
            r.event_type@ == event_type@,
            r.schema_version == 1,
            r.payload@ == payload@,
    {
        ConformanceRow { version, event_type: event_type.to_owned(), schema_version: 1, payload }
    }

    /// Set the schema version.
    pub fn with_schema_version(self, schema_version: u32) -> (r: ConformanceRow)
        ensures
            r.version == self.version,
            r.event_type@ == self.event_type@,
            r.schema_version == schema_version,
            r.payload@ == self.payload@,
    {
        let mut s = self;
        s.schema_version = schema_version;
        s
    }
}

/// Whether the positions are strictly increasing, pairwise.
pub open spec fn strictly_increasing(positions: Seq<(u64, Vec<u8>)>) -> bool {
    forall|i: int, j: int| 0 <= i < j < positions.len() ==> positions[i].0 < positions[j].0
}

/// Check that global positions strictly increase from row to row.
pub fn assert_strictly_increasing(positions: &[(u64, Vec<u8>)]) -> (r: bool)
    ensures
        r == strictly_increasing(positions@),
{
    let mut i: usize = 1;
    if positions.len() == 0 {
        return true;
    }
    while i < positions.len()
        invariant
            1 <= i <= positions@.len(),
            strictly_increasing(positions@.subrange(0, i as int)),
        decreases positions@.len() - i,
    {
        if positions[i - 1].0 >= positions[i].0 {
            assert(!strictly_increasing(positions@)) by {
                assert(positions@[i - 1].0 >= positions@[i as int].0);
            }
            return false;
        }
        proof {
            let s = positions@.subrange(0, i as int + 1);
            assert forall|a: int, b: int| 0 <= a < b < s.len() implies s[a].0 < s[b].0 by {
                if b < i {
                    assert(positions@.subrange(0, i as int)[a] == s[a]);
                    assert(positions@.subrange(0, i as int)[b] == s[b]);
                } else if a < i - 1 {
                    assert(positions@.subrange(0, i as int)[a] == s[a]);
                    assert(positions@.subrange(0, i as int)[i - 1] == s[i - 1]);
                }
            }
        }
        i = i + 1;
    }
    assert(positions@.subrange(0, i as int) =~= positions@);
    true
}


/// How many items one resume cycle takes before it checkpoints and reopens.
pub const RESUME_CYCLE_TAKE: u32 = 3;

/// What a resume cycle does next.
#[derive(Debug)]
pub enum ResumeStep {
    /// Record the item and keep reading this cycle.
    Take,
    /// End the cycle and reopen strictly after this position (`None`:
    /// from the start).
    Reopen(Option<u64>),
    /// The cycle delivered nothing: the stream is drained.
    Stop,
}

/// The next move of a resume cycle that has taken `taken` items so far
/// (`advanced`: whether anything was delivered; `last`: the last delivered
/// position) and now reads `item` (the next item's position, or `None` when
/// the cycle's read ended): an item is taken, and the cycle ends at it once
/// [`RESUME_CYCLE_TAKE`] items are in; an ended read reopens at the last
/// delivered position if anything was delivered, and stops otherwise.
pub open spec fn resume_spec(taken: u32, advanced: bool, last: Option<u64>, item: Option<u64>) -> ResumeStep {
    match item {
        Some(pos) => if taken + 1 >= RESUME_CYCLE_TAKE {
            ResumeStep::Reopen(Some(pos))
        } else {
            ResumeStep::Take
        },
        None => if advanced {
            ResumeStep::Reopen(last)
        } else {
            ResumeStep::Stop
        },
    }
}

/// Decide the next move of a resume cycle, as [`resume_spec`] says.
pub fn resume_cycle_step(taken: u32, advanced: bool, last: Option<u64>, item: Option<u64>) -> (r: ResumeStep)
    ensures
        r == resume_spec(taken, advanced, last, item),
{
    match item {
        Some(pos) => if taken >= RESUME_CYCLE_TAKE - 1 {
            ResumeStep::Reopen(Some(pos))
        } else {
            ResumeStep::Take
        },
        None => if advanced {
            ResumeStep::Reopen(last)
        } else {
            ResumeStep::Stop
        },
    }
}

/// The payloads of rows, in order.
pub open spec fn payloads(rows: Seq<(u64, Vec<u8>)>) -> Seq<Seq<u8>> {
    rows.map_values(|r: (u64, Vec<u8>)| r.1@)
}

/// Whether the rows gathered over resume cycles reconstruct the
/// single-shot read: the same payloads in the same order (no gap,
/// duplicate or skip across the seams), at strictly increasing positions.
pub fn resume_cycles_agree(full: &[(u64, Vec<u8>)], gathered: &[(u64, Vec<u8>)]) -> (r: bool)
    ensures
        r == (payloads(gathered@) == payloads(full@) && strictly_increasing(gathered@)),
{
    if full.len() != gathered.len() {
        assert(payloads(gathered@).len() != payloads(full@).len());
        return false;
    }
    let n = full.len();
    let mut i: usize = 0;
    while i < n
        invariant
            n == full@.len(),
            n == gathered@.len(),
            i <= n,
            forall|j: int| 0 <= j < i ==> (#[trigger] gathered@[j]).1@ == full@[j].1@,
        decreases n - i,
    {
        if !crate::value::bytes_eq(gathered[i].1.as_slice(), full[i].1.as_slice()) {
            assert(payloads(gathered@)[i as int] != payloads(full@)[i as int]);
            return false;
        }
        i = i + 1;
    }
    assert(payloads(gathered@) =~= payloads(full@));
    assert_strictly_increasing(gathered)
}

/// What a read strictly after checkpoint `c` yields from a log whose
/// positions are `log`: the rows past the leading ones at or before `c`
/// (all of them from the start).
pub open spec fn read_after(log: Seq<u64>, c: Option<u64>) -> Seq<u64>
    decreases log.len(),
{
    match c {
        None => log,
        Some(x) => if log.len() == 0 || log[0] > x {
            log
        } else {
            read_after(log.drop_first(), c)
        },
    }
}

/// One cycle over what its read yields, from item `k` on (`last`: the
/// last delivered position): how many items it delivered in all, and how
/// it ended, each move as [`resume_spec`] decides.
pub open spec fn resume_cycle(rows: Seq<u64>, k: int, last: Option<u64>) -> (int, ResumeStep)
    decreases rows.len() - k,
{
    if k < 0 || k > rows.len() {
        (k, ResumeStep::Stop)
    } else {
        let item = if k < rows.len() {
            Some(rows[k])
        } else {
            None
        };
        match resume_spec(k as u32, k > 0, last, item) {
            ResumeStep::Take => if k < rows.len() {
                resume_cycle(rows, k + 1, Some(rows[k]))
            } else {
                (k, ResumeStep::Stop)
            },
            ResumeStep::Reopen(at) => (
                if k < rows.len() {
                    k + 1
                } else {
                    k
                },
                ResumeStep::Reopen(at),
            ),
            ResumeStep::Stop => (k, ResumeStep::Stop),
        }
    }
}

/// The positions gathered by at most `cycles` resume cycles over `log`,
/// starting after checkpoint `c`: each cycle reads strictly after the
/// checkpoint, delivers what [`resume_cycle`] takes, and reopens where it
/// says, until a cycle stops.
pub open spec fn resume_gather(log: Seq<u64>, c: Option<u64>, cycles: nat) -> Seq<u64>
    decreases cycles,
{
    if cycles == 0 {
        Seq::empty()
    } else {
        let rows = read_after(log, c);
        let (n, step) = resume_cycle(rows, 0, c);
        match step {
            ResumeStep::Reopen(at) => rows.take(n) + resume_gather(log, at, (cycles - 1) as nat),
            _ => rows.take(n),
        }
    }
}

/// Positions that strictly increase.
pub open spec fn increasing(log: Seq<u64>) -> bool {
    forall|i: int, j: int| 0 <= i < j < log.len() ==> log[i] < log[j]
}

proof fn lemma_read_after_checkpoint(log: Seq<u64>, i: int)
    requires
        increasing(log),
        0 < i <= log.len(),
    ensures
        read_after(log, Some(log[i - 1])) == log.skip(i),
    decreases i,
{
    let c = Some(log[i - 1]);
    assert(read_after(log, c) == read_after(log.drop_first(), c));
    if i == 1 {
        assert(log.drop_first() =~= log.skip(1));
        let rest = log.drop_first();
        if rest.len() > 0 {
            assert(rest[0] == log[1]);
            assert(read_after(rest, c) == rest);
        }
    } else {
        assert(log[0] < log[i - 1]);
        let rest = log.drop_first();
        assert(increasing(rest)) by {
            assert forall|a: int, b: int| 0 <= a < b < rest.len() implies rest[a] < rest[b] by {
                assert(rest[a] == log[a + 1] && rest[b] == log[b + 1]);
            }
        }
        assert(rest[i - 2] == log[i - 1]);
        lemma_read_after_checkpoint(rest, i - 1);
        assert(rest.skip(i - 1) =~= log.skip(i));
    }
}

proof fn lemma_cycle_delivers(rows: Seq<u64>, c: Option<u64>)
    requires
        rows.len() > 0,
    ensures
        ({
            let n = if rows.len() >= RESUME_CYCLE_TAKE {
                RESUME_CYCLE_TAKE as int
            } else {
                rows.len() as int
            };
            resume_cycle(rows, 0, c) == (n, ResumeStep::Reopen(Some(rows[n - 1])))
        }),
{
    reveal_with_fuel(resume_cycle, 4);
}

proof fn lemma_resume_gather_from(log: Seq<u64>, i: int, cycles: nat)
    requires
        increasing(log),
        0 <= i <= log.len(),
        cycles >= log.len() - i + 1,
    ensures
        resume_gather(log, if i == 0 {
            None
        } else {
            Some(log[i - 1])
        }, cycles) == log.skip(i),
    decreases log.len() - i,
{
    let c = if i == 0 {
        None
    } else {
        Some(log[i - 1])
    };
    let rows = read_after(log, c);
    if i > 0 {
        lemma_read_after_checkpoint(log, i);
    }
    assert(rows == log.skip(i));
    if i == log.len() {
        assert(rows.len() == 0);
        assert(resume_cycle(rows, 0, c) == (0int, ResumeStep::Stop));
        assert(rows.take(0) =~= log.skip(i));
    } else {
        lemma_cycle_delivers(rows, c);
        let n = if rows.len() >= RESUME_CYCLE_TAKE {
            RESUME_CYCLE_TAKE as int
        } else {
            rows.len() as int
        };
        assert(rows[n - 1] == log[i + n - 1]);
        lemma_resume_gather_from(log, i + n, (cycles - 1) as nat);
        assert(rows.take(n) + log.skip(i + n) =~= log.skip(i));
    }
}

/// Multi-resume reading rebuilds the stream. Over a log whose positions
/// strictly increase, read strictly after each checkpoint, the cycles that
/// [`resume_cycle_step`] drives (at most [`RESUME_CYCLE_TAKE`] items each,
/// reopening after the last one delivered, stopping when a cycle delivers
/// nothing) gather every position exactly once, in order: no gap,
/// duplicate or skip across the seams.
pub proof fn lemma_resume_cycles_rebuild_the_stream(log: Seq<u64>)
    requires
        increasing(log),
    ensures
        resume_gather(log, None, (log.len() + 1) as nat) == log,
{
    lemma_resume_gather_from(log, 0, (log.len() + 1) as nat);
    assert(log.skip(0) =~= log);
}

} // verus!
