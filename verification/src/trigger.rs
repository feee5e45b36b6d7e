//! When to persist a snapshot, a state, or a projection: the trigger
//! traits and the two stock triggers, [`EveryNEvents`] (bucket crossing,
//! independent of batch size) and [`AfterEventTypes`] (named milestones).
use vstd::prelude::*;
use crate::value::str_eq;
use crate::version::Version;

verus! {

broadcast use crate::version::group_positions;

/// The names of the events just persisted, as character sequences.
pub open spec fn names_view(names: &[&str]) -> Seq<Seq<char>> {
    names@.map_values(|s: &str| s@)
}

/// The position of a stream before a save (`None` = new stream) as a number.
pub open spec fn old_position(old: Option<Version>) -> int {
    match old {
        Some(v) => v.spec_u64() as int,
        None => 0,
    }
}

/// Strategy for deciding when to persist aggregate state after a save.
/// Implemented by users. A trigger that states its answer as `fires` and
/// is verified against it says so through `obeys_trigger_spec`, as the
/// stock triggers below do; one written in plain Rust keeps the defaults
/// and promises nothing.
pub trait PersistTrigger {
    /// Whether this trigger answers as `fires` says.
    open spec fn obeys_trigger_spec() -> bool {
        false
    }

    /// The answer for a save from `old_version` to `new_version` of the
    /// events named `names`.
    open spec fn fires(&self, old_version: Option<Version>, new_version: Version, names: Seq<Seq<char>>) -> bool {
        false
    }

    /// Whether a state update should happen after this save: `old_version`
    /// before it (`None` for new streams), `new_version` after it, and the
    /// names of the events just persisted.
    fn should_persist(&self, old_version: Option<Version>, new_version: Version, event_names: &[&str]) -> (r: bool)
        ensures
            Self::obeys_trigger_spec() ==> r == self.fires(old_version, new_version, names_view(event_names)),
    ;
}

/// Strategy for deciding when to take a snapshot after a save.
pub trait SnapshotTrigger {
    /// Whether a snapshot should be taken after this save.
    fn should_snapshot(&self, old_version: Option<Version>, new_version: Version, event_names: &[&str]) -> bool;
}

/// Strategy for deciding when to update projection state.
pub trait ProjectionTrigger {
    /// Whether a projection state update should happen after this event.
    fn should_project(&self, old_version: Option<Version>, new_version: Version, event_names: &[&str]) -> bool;
}

/// Fire every `n` events: when a save crosses an `n`-event boundary,
/// whatever the batch size.
#[derive(Debug, Clone, Copy)]
pub struct EveryNEvents {
    n: u64,
}

impl EveryNEvents {
    /// The interval.
    pub closed spec fn spec_n(self) -> u64 {
        self.n
    }

    /// The interval is never zero.
    pub closed spec fn wf(self) -> bool {
        self.n >= 1
    }

    /// The trigger's answer: the bucket of the new version (`version / n`)
    /// is past the bucket of the old one (a new stream is in bucket 0).
    pub open spec fn crosses(self, old_version: Option<Version>, new_version: Version) -> bool {
        new_version.spec_u64() as int / self.spec_n() as int > old_position(old_version) / self.spec_n() as int
    }

    /// A trigger firing every `n` events; `None` for `n == 0`.
    pub fn new(n: u64) -> (r: Option<EveryNEvents>)
        ensures
            n == 0 ==> r is None,
            n != 0 ==> (r matches Some(t) && t.spec_n() == n && t.wf()),
    {
        if n == 0 {
            None
        } else {
            Some(EveryNEvents { n })
        }
    }

    /// The interval.
    pub fn get(&self) -> (r: u64)
        ensures
            r == self.spec_n(),
    {
        self.n
    }

    fn bucket_crossed(&self, old_version: Option<Version>, new_version: Version) -> (r: bool)
        ensures
            self.wf() ==> r == self.crosses(old_version, new_version),
    {
        if self.n == 0 {
            return false;
        }
        let old_bucket = match old_version {
            Some(v) => v.as_u64() / self.n,
            None => 0,
        };
        let new_bucket = new_version.as_u64() / self.n;
        new_bucket > old_bucket
    }

    /// Crossing a bucket boundary is exactly passing a multiple of `n`: for
    /// a save from `old` to `new > old`, the trigger fires iff some
    /// multiple of `n` lies in `(old, new]`.
    pub proof fn lemma_crossing_is_multiple(self, old_version: Option<Version>, new_version: Version)
        requires
            self.wf(),
            old_position(old_version) < new_version.spec_u64(),
        ensures
            self.crosses(old_version, new_version) <==> exists|m: int|
                old_position(old_version) < #[trigger] (m * self.spec_n()) <= new_version.spec_u64(),
    {
        let n = self.spec_n() as int;
        let o = old_position(old_version);
        let v = new_version.spec_u64() as int;
        assert(o >= 0);
        if self.crosses(old_version, new_version) {
            let m = v / n;
            assert(m * n <= v) by (nonlinear_arith)
                requires
                    n >= 1,
                    v >= 0,
                    m == v / n,
            ;
            assert(o < m * n) by (nonlinear_arith)
                requires
                    n >= 1,
                    o >= 0,
                    m > o / n,
            ;
        }
        if exists|m: int| o < #[trigger] (m * n) <= v {
            let m = choose|m: int| o < #[trigger] (m * n) <= v;
            assert(v / n >= m) by (nonlinear_arith)
                requires
                    n >= 1,
                    m * n <= v,
            ;
            assert(o / n < m) by (nonlinear_arith)
                requires
                    n >= 1,
                    o >= 0,
                    o < m * n,
            ;
        }
    }
}

impl PersistTrigger for EveryNEvents {
    open spec fn obeys_trigger_spec() -> bool {
        true
    }

    /// A bucket boundary was crossed.
    open spec fn fires(&self, old_version: Option<Version>, new_version: Version, names: Seq<Seq<char>>) -> bool {
        self.wf() && self.crosses(old_version, new_version)
    }

    fn should_persist(&self, old_version: Option<Version>, new_version: Version, event_names: &[&str]) -> (r: bool)
        ensures
            r == (self.wf() && self.crosses(old_version, new_version)),
    {
        self.n != 0 && self.bucket_crossed(old_version, new_version)
    }
}

impl SnapshotTrigger for EveryNEvents {
    fn should_snapshot(&self, old_version: Option<Version>, new_version: Version, event_names: &[&str]) -> (r: bool)
        ensures
            r == (self.wf() && self.crosses(old_version, new_version)),
    {
        self.n != 0 && self.bucket_crossed(old_version, new_version)
    }
}

impl ProjectionTrigger for EveryNEvents {
    fn should_project(&self, old_version: Option<Version>, new_version: Version, event_names: &[&str]) -> (r: bool)
        ensures
            r == (self.wf() && self.crosses(old_version, new_version)),
    {
        self.n != 0 && self.bucket_crossed(old_version, new_version)
    }
}

/// Fire after specific event types: domain milestones.
#[derive(Debug, Clone)]
pub struct AfterEventTypes {
    types: Vec<&'static str>,
}

impl AfterEventTypes {
    /// The event types that fire the trigger.
    pub closed spec fn types_view(&self) -> Seq<Seq<char>> {
        self.types@.map_values(|s: &'static str| s@)
    }

    /// Whether any of `names` is one of the trigger's types.
    pub open spec fn matches_any(&self, names: Seq<Seq<char>>) -> bool {
        exists|i: int, j: int|
            0 <= i < names.len() && 0 <= j < self.types_view().len() && #[trigger] names[i]
                == #[trigger] self.types_view()[j]
    }

    /// A trigger that fires when any of the given event types is persisted.
    pub fn new(types: &[&'static str]) -> (r: AfterEventTypes)
        ensures
            r.types_view() == types@.map_values(|s: &'static str| s@),
    {
        let mut v: Vec<&'static str> = Vec::new();
        let mut i: usize = 0;
        while i < types.len()
            invariant
                i <= types@.len(),
                v@ == types@.subrange(0, i as int),
            decreases types@.len() - i,
        {
            v.push(types[i]);
            i = i + 1;
            assert(v@ =~= types@.subrange(0, i as int));
        }
        assert(types@.subrange(0, i as int) =~= types@);
        AfterEventTypes { types: v }
    }

    fn any_named(&self, event_names: &[&str]) -> (r: bool)
        ensures
            r == self.matches_any(names_view(event_names)),
    {
        let ghost names = names_view(event_names);
        let ghost tv = self.types_view();
        let mut i: usize = 0;
        while i < event_names.len()
            invariant
                i <= event_names@.len(),
                names == names_view(event_names),
                tv == self.types_view(),
                forall|a: int, b: int|
                    0 <= a < i && 0 <= b < tv.len() ==> #[trigger] names[a] != #[trigger] tv[b],
            decreases event_names@.len() - i,
        {
            let mut j: usize = 0;
            while j < self.types.len()
                invariant
                    i < event_names@.len(),
                    j <= self.types@.len(),
                    names == names_view(event_names),
                    tv == self.types_view(),
                    forall|a: int, b: int|
                        0 <= a < i && 0 <= b < tv.len() ==> #[trigger] names[a] != #[trigger] tv[b],
                    forall|b: int| 0 <= b < j ==> names[i as int] != #[trigger] tv[b],
                decreases self.types@.len() - j,
            {
                if str_eq(event_names[i], self.types[j]) {
                    assert(names[i as int] == tv[j as int]);
                    return true;
                }
                j = j + 1;
            }
            i = i + 1;
        }
        false
    }
}

impl PersistTrigger for AfterEventTypes {
    open spec fn obeys_trigger_spec() -> bool {
        true
    }

    /// One of the events is a milestone.
    open spec fn fires(&self, old_version: Option<Version>, new_version: Version, names: Seq<Seq<char>>) -> bool {
        self.matches_any(names)
    }

    fn should_persist(&self, old_version: Option<Version>, new_version: Version, event_names: &[&str]) -> (r: bool)
        ensures
            r == self.matches_any(names_view(event_names)),
    {
        self.any_named(event_names)
    }
}

impl SnapshotTrigger for AfterEventTypes {
    fn should_snapshot(&self, old_version: Option<Version>, new_version: Version, event_names: &[&str]) -> (r: bool)
        ensures
            r == self.matches_any(names_view(event_names)),
    {
        self.any_named(event_names)
    }
}

impl ProjectionTrigger for AfterEventTypes {
    fn should_project(&self, old_version: Option<Version>, new_version: Version, event_names: &[&str]) -> (r: bool)
        ensures
            r == self.matches_any(names_view(event_names)),
    {
        self.any_named(event_names)
    }
}

} // verus!
