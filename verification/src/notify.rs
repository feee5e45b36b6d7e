//! The bookkeeping of the per-stream wake registry: how many live
//! subscribers each stream has. A stream's entry exists exactly while it
//! has subscribers — created on the first subscribe, reaped when the last
//! subscriber goes — so the registry never grows past the set of streams
//! someone is waiting on. The wake primitives themselves live with the
//! async runtime; this is the count they are kept by.
use vstd::prelude::*;
use crate::value::bytes_eq;

verus! {

/// Why a subscription was refused.
#[derive(Debug, Clone, Copy, PartialEq, Eq, Structural)]
pub enum NotifyError {
    /// The live-subscriber count of a single stream would overflow.
    SubscriberOverflow,
}

/// Live-subscriber counts per stream key.
#[derive(Debug)]
pub struct SubscriberCounts {
    entries: Vec<(Vec<u8>, usize)>,
}

impl SubscriberCounts {
    /// The keys, in entry order.
    pub closed spec fn keys(&self) -> Seq<Seq<u8>> {
        self.entries@.map_values(|e: (Vec<u8>, usize)| e.0@)
    }

    /// The count at entry `i`.
    pub closed spec fn count_at(&self, i: int) -> nat {
        self.entries@[i].1 as nat
    }

    /// Keys are distinct and every entry has a subscriber.
    pub closed spec fn wf(&self) -> bool {
        &&& self.keys().no_duplicates()
        &&& forall|i: int| 0 <= i < self.entries@.len() ==> self.count_at(i) >= 1
    }

    /// The live-subscriber count of every stream with an entry.
    pub closed spec fn counts(&self) -> Map<Seq<u8>, nat> {
        Map::new(
            |k: Seq<u8>| self.keys().contains(k),
            |k: Seq<u8>| self.count_at(choose|i: int| 0 <= i < self.keys().len() && self.keys()[i] == k),
        )
    }

    /// The count of `k` (0 when it has no entry).
    pub open spec fn count_of(&self, k: Seq<u8>) -> nat {
        if self.counts().dom().contains(k) {
            self.counts()[k]
        } else {
            0
        }
    }

    proof fn lemma_count_at(&self, i: int)
        requires
            self.wf(),
            0 <= i < self.entries@.len(),
        ensures
            self.counts().dom().contains(self.keys()[i]),
            self.counts()[self.keys()[i]] == self.count_at(i),
    {
        let k = self.keys()[i];
        assert(self.keys().contains(k));
        let j = choose|j: int| 0 <= j < self.keys().len() && self.keys()[j] == k;
        assert(j == i);
    }

    /// An empty registry.
    pub fn new() -> (r: SubscriberCounts)
        ensures
            r.wf(),
            r.counts() == Map::<Seq<u8>, nat>::empty(),
    {
        let r = SubscriberCounts { entries: Vec::new() };
        assert(r.counts() =~= Map::<Seq<u8>, nat>::empty());
        r
    }

    fn find(&self, key: &[u8]) -> (r: Option<usize>)
        ensures
            match r {
                Some(i) => i < self.entries@.len() && self.keys()[i as int] == key@,
                None => !self.keys().contains(key@),
            },
    {
        let mut i: usize = 0;
        while i < self.entries.len()
            invariant
                i <= self.entries@.len(),
                forall|j: int| 0 <= j < i ==> self.keys()[j] != key@,
            decreases self.entries@.len() - i,
        {
            if bytes_eq(self.entries[i].0.as_slice(), key) {
                return Some(i);
            }
            i = i + 1;
        }
        None
    }

    /// Add a live subscriber to `key`, creating its entry on the first.
    /// Fails, changing nothing, when the count would overflow.
    pub fn subscribe(&mut self, key: &[u8]) -> (r: Result<(), NotifyError>)
        requires
            old(self).wf(),
        ensures
            final(self).wf(),
            old(self).count_of(key@) == usize::MAX ==> r == Err::<(), NotifyError>(
                NotifyError::SubscriberOverflow,
            ) && final(self).counts() == old(self).counts(),
            old(self).count_of(key@) < usize::MAX ==> r is Ok && final(self).counts() == old(
                self,
            ).counts().insert(key@, old(self).count_of(key@) + 1),
            r is Ok ==> final(self).counts() == count_step(old(self).counts(), CountOp::Subscribe(key@)),
    {
        let ghost before = self.counts();
        match self.find(key) {
            Some(i) => {
                proof {
                    self.lemma_count_at(i as int);
                }
                let c = self.entries[i].1;
                if c == usize::MAX {
                    return Err(NotifyError::SubscriberOverflow);
                }
                let k = crate::value::copy_bytes(self.entries[i].0.as_slice());
                let ghost old_entries = self.entries@;
                self.entries.set(i, (k, c + 1));
                proof {
                    assert(self.keys() =~= old(self).keys());
                    assert forall|j: int| 0 <= j < self.entries@.len() implies self.count_at(j) >= 1 by {
                        if j != i {
                            assert(self.entries@[j] == old_entries[j]);
                            assert(old(self).count_at(j) >= 1);
                        }
                    }
                    assert forall|kk: Seq<u8>| #[trigger] self.counts().dom().contains(kk) implies self.counts()[kk]
                        == before.insert(key@, (c + 1) as nat)[kk] by {
                        let j = choose|j: int| 0 <= j < self.keys().len() && self.keys()[j] == kk;
                        self.lemma_count_at(j);
                        old(self).lemma_count_at(j);
                    }
                    assert(self.counts() =~= before.insert(key@, (c + 1) as nat));
                }
                Ok(())
            },
            None => {
                let k = crate::value::copy_bytes(key);
                let ghost old_keys = self.keys();
                self.entries.push((k, 1));
                proof {
                    assert(self.keys() =~= old_keys.push(key@));
                    assert forall|a: int, b: int|
                        0 <= a < self.keys().len() && 0 <= b < self.keys().len() && a != b implies self.keys()[a]
                        != self.keys()[b] by {
                        if a < old_keys.len() && b < old_keys.len() {
                        } else if a == old_keys.len() {
                            assert(old_keys[b] != key@);
                        } else {
                            assert(old_keys[a] != key@);
                        }
                    }
                    assert forall|j: int| 0 <= j < self.entries@.len() implies self.count_at(j) >= 1 by {
                        if j < old_keys.len() {
                            assert(self.entries@[j] == old(self).entries@[j]);
                            assert(old(self).count_at(j) >= 1);
                        }
                    }
                    assert forall|kk: Seq<u8>| #[trigger] self.counts().dom().contains(kk) implies self.counts()[kk]
                        == before.insert(key@, 1nat)[kk] by {
                        let j = choose|j: int| 0 <= j < self.keys().len() && self.keys()[j] == kk;
                        self.lemma_count_at(j);
                        if j < old_keys.len() {
                            old(self).lemma_count_at(j);
                            assert(self.entries@[j] == old(self).entries@[j]);
                        }
                    }
                    assert forall|kk: Seq<u8>| #[trigger] before.insert(key@, 1nat).dom().contains(kk) implies self.counts().dom().contains(kk) by {
                        if kk != key@ {
                            let j = choose|j: int| 0 <= j < old_keys.len() && old_keys[j] == kk;
                            assert(self.keys()[j] == kk);
                        } else {
                            assert(self.keys()[old_keys.len() as int] == kk);
                        }
                    }
                    assert(self.counts() =~= before.insert(key@, 1nat));
                }
                Ok(())
            },
        }
    }

    /// Drop one live subscriber of `key`; the entry is reaped when the
    /// last one goes. Returns whether it was reaped. A key without an
    /// entry is left alone.
    pub fn release(&mut self, key: &[u8]) -> (r: bool)
        requires
            old(self).wf(),
        ensures
            final(self).wf(),
            r == (old(self).count_of(key@) == 1),
            old(self).count_of(key@) == 0 ==> final(self).counts() == old(self).counts(),
            old(self).count_of(key@) == 1 ==> final(self).counts() == old(self).counts().remove(
                key@,
            ),
            old(self).count_of(key@) >= 2 ==> final(self).counts() == old(self).counts().insert(
                key@,
                (old(self).count_of(key@) - 1) as nat,
            ),
            final(self).counts() == count_step(old(self).counts(), CountOp::Release(key@)),
    {
        let ghost before = self.counts();
        match self.find(key) {
            None => {
                assert(!before.dom().contains(key@));
                false
            },
            Some(i) => {
                proof {
                    self.lemma_count_at(i as int);
                }
                let c = self.entries[i].1;
                let ghost old_entries = self.entries@;
                let ghost old_keys = self.keys();
                if c <= 1 {
                    self.entries.remove(i);
                    proof {
                        assert(self.keys() =~= old_keys.remove(i as int));
                        assert forall|a: int, b: int|
                            0 <= a < self.keys().len() && 0 <= b < self.keys().len() && a != b implies self.keys()[a]
                            != self.keys()[b] by {
                            let a2 = if a < i { a } else { a + 1 };
                            let b2 = if b < i { b } else { b + 1 };
                            assert(self.keys()[a] == old_keys[a2]);
                            assert(self.keys()[b] == old_keys[b2]);
                        }
                        assert forall|j: int| 0 <= j < self.entries@.len() implies self.count_at(j) >= 1 by {
                            let j2 = if j < i { j } else { j + 1 };
                            assert(self.entries@[j] == old_entries[j2]);
                            assert(old(self).count_at(j2) >= 1);
                        }
                        assert forall|kk: Seq<u8>| #[trigger] before.remove(key@).dom().contains(kk) implies self.counts().dom().contains(kk) by {
                            let j = choose|j: int| 0 <= j < old_keys.len() && old_keys[j] == kk;
                            assert(j != i);
                            let j2 = if j < i { j } else { j - 1 };
                            assert(self.keys()[j2] == kk);
                        }
                        assert forall|kk: Seq<u8>| #[trigger] self.counts().dom().contains(kk) implies self.counts()[kk]
                            == before.remove(key@)[kk] && before.remove(key@).dom().contains(kk) by {
                            let j = choose|j: int| 0 <= j < self.keys().len() && self.keys()[j] == kk;
                            self.lemma_count_at(j);
                            let j2 = if j < i { j } else { j + 1 };
                            assert(self.entries@[j] == old_entries[j2]);
                            assert(old_keys[j2] == kk);
                            old(self).lemma_count_at(j2);
                        }
                        assert(self.counts() =~= before.remove(key@));
                    }
                    true
                } else {
                    let k = crate::value::copy_bytes(self.entries[i].0.as_slice());
                    self.entries.set(i, (k, c - 1));
                    proof {
                        assert(self.keys() =~= old_keys);
                        assert forall|j: int| 0 <= j < self.entries@.len() implies self.count_at(j) >= 1 by {
                            if j != i {
                                assert(self.entries@[j] == old_entries[j]);
                                assert(old(self).count_at(j) >= 1);
                            }
                        }
                        assert forall|kk: Seq<u8>| #[trigger] self.counts().dom().contains(kk) implies self.counts()[kk]
                            == before.insert(key@, (c - 1) as nat)[kk] by {
                            let j = choose|j: int| 0 <= j < self.keys().len() && self.keys()[j] == kk;
                            self.lemma_count_at(j);
                            old(self).lemma_count_at(j);
                        }
                        assert(self.counts() =~= before.insert(key@, (c - 1) as nat));
                    }
                    false
                }
            },
        }
    }

    /// How many streams have live subscribers.
    pub fn active_streams(&self) -> (r: usize)
        requires
            self.wf(),
        ensures
            r == self.counts().dom().len(),
    {
        proof {
            self.keys().unique_seq_to_set();
            assert(self.counts().dom() =~= self.keys().to_set());
        }
        self.entries.len()
    }

    /// The live-subscriber count of `key` (0 without an entry).
    pub fn subscribers(&self, key: &[u8]) -> (r: usize)
        requires
            self.wf(),
        ensures
            r == self.count_of(key@),
    {
        match self.find(key) {
            Some(i) => {
                proof {
                    self.lemma_count_at(i as int);
                }
                self.entries[i].1
            },
            None => 0,
        }
    }
}

/// A release undoes a subscribe: subscribing to a stream and then
/// releasing that subscription leaves every count as it was.
pub proof fn lemma_release_undoes_subscribe(
    before: Map<Seq<u8>, nat>,
    key: Seq<u8>,
    c: nat,
    after_subscribe: Map<Seq<u8>, nat>,
    after_release: Map<Seq<u8>, nat>,
)
    requires
        c == (if before.dom().contains(key) { before[key] } else { 0 }),
        forall|k: Seq<u8>| #[trigger] before.dom().contains(k) ==> before[k] >= 1,
        after_subscribe == before.insert(key, c + 1),
        c + 1 == 1 ==> after_release == after_subscribe.remove(key),
        c + 1 >= 2 ==> after_release == after_subscribe.insert(key, c),
    ensures
        after_release == before,
{
    if c == 0 {
        assert(!before.dom().contains(key));
        assert(after_release =~= before);
    } else {
        assert(after_release =~= before);
    }
}

/// One registry operation: a subscription taken, or one released.
pub enum CountOp {
    Subscribe(Seq<u8>),
    Release(Seq<u8>),
}

/// The count of `k` in `m` (0 when absent).
pub open spec fn count_in(m: Map<Seq<u8>, nat>, k: Seq<u8>) -> nat {
    if m.dom().contains(k) {
        m[k]
    } else {
        0
    }
}

/// What [`SubscriberCounts::subscribe`] (short of overflow) and
/// [`SubscriberCounts::release`] do to the counts.
pub open spec fn count_step(m: Map<Seq<u8>, nat>, op: CountOp) -> Map<Seq<u8>, nat> {
    match op {
        CountOp::Subscribe(k) => m.insert(k, count_in(m, k) + 1),
        CountOp::Release(k) => if count_in(m, k) == 0 {
            m
        } else if count_in(m, k) == 1 {
            m.remove(k)
        } else {
            m.insert(k, (count_in(m, k) - 1) as nat)
        },
    }
}

/// The counts after `ops`, starting from a new registry.
pub open spec fn counts_after(ops: Seq<CountOp>) -> Map<Seq<u8>, nat>
    decreases ops.len(),
{
    if ops.len() == 0 {
        Map::empty()
    } else {
        count_step(counts_after(ops.drop_last()), ops.last())
    }
}

/// How many guards of `k` are live after `ops`: subscriptions taken less
/// those released.
pub open spec fn live_guards(ops: Seq<CountOp>, k: Seq<u8>) -> int
    decreases ops.len(),
{
    if ops.len() == 0 {
        0
    } else {
        live_guards(ops.drop_last(), k) + match ops.last() {
            CountOp::Subscribe(j) => if j == k {
                1int
            } else {
                0
            },
            CountOp::Release(j) => if j == k {
                -1int
            } else {
                0
            },
        }
    }
}

/// Every release in `ops` gives back a guard that is live at that point.
pub open spec fn releases_matched(ops: Seq<CountOp>) -> bool
    decreases ops.len(),
{
    if ops.len() == 0 {
        true
    } else {
        releases_matched(ops.drop_last()) && match ops.last() {
            CountOp::Release(k) => live_guards(ops.drop_last(), k) >= 1,
            CountOp::Subscribe(_) => true,
        }
    }
}

/// The registry's lifecycle: after any sequence of subscriptions and
/// matching releases, it holds exactly the streams with a live guard, each
/// with its number of live guards — so `active_streams` is the number of
/// streams with a live guard, and a stream whose last guard went is gone.
pub proof fn lemma_counts_track_live_guards(ops: Seq<CountOp>)
    requires
        releases_matched(ops),
    ensures
        forall|k: Seq<u8>| live_guards(ops, k) >= 0,
        forall|k: Seq<u8>|
            #![trigger counts_after(ops).dom().contains(k)]
            counts_after(ops).dom().contains(k) <==> live_guards(ops, k) > 0,
        forall|k: Seq<u8>|
            counts_after(ops).dom().contains(k) ==> #[trigger] counts_after(ops)[k] == live_guards(
                ops,
                k,
            ),
    decreases ops.len(),
{
    if ops.len() > 0 {
        let prev = ops.drop_last();
        lemma_counts_track_live_guards(prev);
        let m = counts_after(prev);
        assert forall|k: Seq<u8>| #[trigger] count_in(m, k) == live_guards(prev, k) by {}
        match ops.last() {
            CountOp::Subscribe(j) => {
                assert forall|k: Seq<u8>| live_guards(ops, k) >= 0 by {
                    assert(count_in(m, k) == live_guards(prev, k));
                }
            },
            CountOp::Release(j) => {
                assert(count_in(m, j) == live_guards(prev, j));
                assert forall|k: Seq<u8>| live_guards(ops, k) >= 0 by {
                    assert(count_in(m, k) == live_guards(prev, k));
                }
            },
        }
        assert forall|k: Seq<u8>|
            #![trigger counts_after(ops).dom().contains(k)]
            counts_after(ops).dom().contains(k) <==> live_guards(ops, k) > 0 by {
            assert(count_in(m, k) == live_guards(prev, k));
        }
        assert forall|k: Seq<u8>|
            counts_after(ops).dom().contains(k) implies #[trigger] counts_after(ops)[k]
                == live_guards(ops, k) by {
            assert(count_in(m, k) == live_guards(prev, k));
        }
    }
}

} // verus!
