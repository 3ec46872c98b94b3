//! Pattern records: compact summaries of recurring signal co-activation clusters.
use vstd::prelude::*;
use std::collections::HashMap;
use crate::signal::types::SignalId;

verus! {

broadcast use vstd::std_specs::hash::group_hash_axioms;

/// The temporal shape of a signal within a pattern window.
#[derive(Debug, Clone, Copy, PartialEq, Eq, Structural)]
pub enum TemporalShape {
    Rising,
    Falling,
    Plateau,
    Spiking,
}

/// A compact summary of a recurring signal co-activation cluster, identified
/// by a structural hash. Shapes are keyed by the signal's number.
#[derive(Debug, Clone)]
pub struct PatternRecord {
    /// Structural identifier.
    pub id: u64,
    /// The signals that were co-active.
    pub signal_set: Vec<SignalId>,
    /// Temporal shape per signal (most recent observation wins).
    pub shapes: HashMap<u32, TemporalShape>,
    /// How many times this pattern has been observed.
    pub frequency: u32,
    /// Action ids that co-occurred with this pattern, and their counts.
    pub co_actions: HashMap<u32, u32>,
    /// Tick of first observation.
    pub first_seen: u64,
    /// Tick of most recent observation.
    pub last_seen: u64,
}

/// `m` with the entries of `s` inserted in order (a later entry wins).
pub open spec fn insert_all(m: Map<u32, TemporalShape>, s: Seq<(u32, TemporalShape)>) -> Map<u32, TemporalShape>
    decreases s.len(),
{
    if s.len() == 0 {
        m
    } else {
        insert_all(m, s.drop_last()).insert(s.last().0, s.last().1)
    }
}

/// The action counts after one more co-occurrence of `action` (if any).
pub open spec fn count_action(m: Map<u32, u32>, action: Option<u32>) -> Map<u32, u32> {
    match action {
        Some(a) => m.insert(a, (if m.contains_key(a) { m[a] + 1 } else { 1 }) as u32),
        None => m,
    }
}

/// Whether one more observation of `action` can be counted without overflow.
pub open spec fn action_countable(m: Map<u32, u32>, action: Option<u32>) -> bool {
    action matches Some(a) ==> (m.contains_key(a) ==> m[a] < u32::MAX)
}

impl PatternRecord {
    /// `after` is `before` with one more observation merged in.
    pub open spec fn is_merge_of(
        after: PatternRecord,
        before: PatternRecord,
        shapes: Seq<(u32, TemporalShape)>,
        action: Option<u32>,
        tick: u64,
    ) -> bool {
        &&& after.id == before.id
        &&& after.signal_set@ == before.signal_set@
        &&& after.frequency == before.frequency + 1
        &&& after.shapes@ == insert_all(before.shapes@, shapes)
        &&& after.co_actions@ == count_action(before.co_actions@, action)
        &&& after.first_seen == before.first_seen
        &&& after.last_seen == tick
    }

    /// Whether a record can take one more observation without a counter overflowing.
    pub open spec fn can_merge(self, action: Option<u32>) -> bool {
        self.frequency < u32::MAX && action_countable(self.co_actions@, action)
    }

    /// A new record seen once, at `tick`, with no shapes and no actions.
    pub fn new(id: u64, signal_set: Vec<SignalId>, tick: u64) -> (r: PatternRecord)
        ensures
            r.id == id,
            r.signal_set@ == signal_set@,
            r.shapes@ == Map::<u32, TemporalShape>::empty(),
            r.frequency == 1,
            r.co_actions@ == Map::<u32, u32>::empty(),
            r.first_seen == tick,
            r.last_seen == tick,
    {
        PatternRecord {
            id,
            signal_set,
            shapes: HashMap::new(),
            frequency: 1,
            co_actions: HashMap::new(),
            first_seen: tick,
            last_seen: tick,
        }
    }

    /// Insert the shapes of `shapes` in order.
    pub(crate) fn record_shapes(&mut self, shapes: &[(u32, TemporalShape)])
        ensures
            final(self).shapes@ == insert_all(old(self).shapes@, shapes@),
            final(self).id == old(self).id,
            final(self).signal_set == old(self).signal_set,
            final(self).frequency == old(self).frequency,
            final(self).co_actions == old(self).co_actions,
            final(self).first_seen == old(self).first_seen,
            final(self).last_seen == old(self).last_seen,
    {
        let ghost m0 = self.shapes@;
        let mut i: usize = 0;
        while i < shapes.len()
            invariant
                i <= shapes@.len(),
                self.shapes@ == insert_all(m0, shapes@.take(i as int)),
                self.id == old(self).id,
                self.signal_set == old(self).signal_set,
                self.frequency == old(self).frequency,
                self.co_actions == old(self).co_actions,
                self.first_seen == old(self).first_seen,
                self.last_seen == old(self).last_seen,
            decreases shapes@.len() - i,
        {
            let (k, v) = shapes[i];
            assert(shapes@.take(i + 1).drop_last() =~= shapes@.take(i as int));
            self.shapes.insert(k, v);
            i = i + 1;
        }
        assert(shapes@.take(shapes@.len() as int) =~= shapes@);
    }

    /// Count one more co-occurrence of `action` (if any).
    pub(crate) fn record_action(&mut self, action: Option<u32>)
        requires
            action_countable(old(self).co_actions@, action),
        ensures
            final(self).co_actions@ == count_action(old(self).co_actions@, action),
            final(self).id == old(self).id,
            final(self).signal_set == old(self).signal_set,
            final(self).frequency == old(self).frequency,
            final(self).shapes == old(self).shapes,
            final(self).first_seen == old(self).first_seen,
            final(self).last_seen == old(self).last_seen,
    {
        if let Some(a) = action {
            let c: u32 = match self.co_actions.get(&a) {
                Some(v) => *v,
                None => 0,
            };
            self.co_actions.insert(a, c + 1);
        }
    }

    /// Merge one more observation: count it, stamp `tick`, overwrite the
    /// shapes it reports and count the co-occurring action.
    pub fn merge_observation(&mut self, shapes: &[(u32, TemporalShape)], action_id: Option<u32>, tick: u64)
        requires
            old(self).can_merge(action_id),
        ensures
            PatternRecord::is_merge_of(*final(self), *old(self), shapes@, action_id, tick),
    {
        self.frequency = self.frequency + 1;
        self.last_seen = tick;
        self.record_shapes(shapes);
        self.record_action(action_id);
    }

    /// Intersection and union sizes of the two records' signal sets: the
    /// numerator and denominator of their Jaccard similarity.
    pub fn similarity(&self, other: &PatternRecord) -> (r: (usize, usize))
        ensures
            r.0 as nat == overlap(self.signal_set@, other.signal_set@).0,
            r.1 as nat == overlap(self.signal_set@, other.signal_set@).1,
    {
        set_overlap(self.signal_set.as_slice(), other.signal_set.as_slice())
    }

    /// Intersection and union sizes of this record's signal set and the set of
    /// currently live signals.
    pub fn similarity_to_live(&self, live: &[SignalId]) -> (r: (usize, usize))
        ensures
            r.0 as nat == overlap(self.signal_set@, live@).0,
            r.1 as nat == overlap(self.signal_set@, live@).1,
    {
        set_overlap(self.signal_set.as_slice(), live)
    }
}

/// Size of the intersection and of the union of the signal sets of `a` and `b`
/// (duplicates count once).
pub open spec fn overlap(a: Seq<SignalId>, b: Seq<SignalId>) -> (nat, nat) {
    (a.to_set().intersect(b.to_set()).len(), a.to_set().union(b.to_set()).len())
}

fn contains_id(v: &Vec<SignalId>, x: SignalId) -> (r: bool)
    ensures
        r == v@.contains(x),
{
    let mut i: usize = 0;
    while i < v.len()
        invariant
            i <= v@.len(),
            forall|t: int| 0 <= t < i ==> v@[t] != x,
        decreases v@.len() - i,
    {
        if v[i].0 == x.0 {
            assert(v@[i as int] == x);
            return true;
        }
        i = i + 1;
    }
    false
}

/// The distinct ids of `a`, in first-occurrence order.
fn distinct_ids(a: &[SignalId]) -> (r: Vec<SignalId>)
    ensures
        r@.no_duplicates(),
        r@.to_set() == a@.to_set(),
{
    let mut r: Vec<SignalId> = Vec::new();
    let mut k: usize = 0;
    assert(a@.take(0).to_set() =~= Set::<SignalId>::empty());
    assert(r@.to_set() =~= Set::<SignalId>::empty());
    while k < a.len()
        invariant
            k <= a@.len(),
            r@.no_duplicates(),
            r@.to_set() == a@.take(k as int).to_set(),
        decreases a@.len() - k,
    {
        let x = a[k];
        proof {
            assert(a@.take(k + 1) =~= a@.take(k as int).push(x));
            a@.take(k as int).lemma_push_to_set_commute(x);
        }
        if !contains_id(&r, x) {
            let ghost before = r@;
            r.push(x);
            proof {
                before.lemma_push_to_set_commute(x);
                assert(r@.no_duplicates()) by {
                    assert forall|i: int, j: int| 0 <= i < j < r@.len() implies r@[i] != r@[j] by {
                        if j == r@.len() - 1 {
                            assert(before.contains(before[i]));
                        }
                    }
                }
            }
        } else {
            proof {
                assert(r@.to_set().contains(x));
                assert(a@.take(k + 1).to_set() =~= a@.take(k as int).to_set());
            }
        }
        k = k + 1;
    }
    assert(a@.take(a@.len() as int) =~= a@);
    r
}

/// The intersection and union sizes of the signal sets of `a` and `b`
/// (the numerator and denominator of their Jaccard similarity).
pub fn set_overlap(a: &[SignalId], b: &[SignalId]) -> (r: (usize, usize))
    ensures
        r.0 as nat == overlap(a@, b@).0,
        r.1 as nat == overlap(a@, b@).1,
{
    let da = distinct_ids(a);
    let db = distinct_ids(b);
    let ghost sa = a@.to_set();
    let ghost sb = b@.to_set();
    // intersection
    let mut inter: Vec<SignalId> = Vec::new();
    let mut k: usize = 0;
    assert(da@.take(0).to_set() =~= Set::<SignalId>::empty());
    assert(inter@.to_set() =~= Set::<SignalId>::empty().intersect(sb));
    while k < da.len()
        invariant
            k <= da@.len(),
            da@.no_duplicates(),
            da@.to_set() == sa,
            db@.to_set() == sb,
            inter@.no_duplicates(),
            inter@.to_set() == da@.take(k as int).to_set().intersect(sb),
        decreases da@.len() - k,
    {
        let x = da[k];
        proof {
            assert(da@.take(k + 1) =~= da@.take(k as int).push(x));
            da@.take(k as int).lemma_push_to_set_commute(x);
        }
        if contains_id(&db, x) {
            let ghost before = inter@;
            inter.push(x);
            proof {
                before.lemma_push_to_set_commute(x);
                assert(!before.contains(x)) by {
                    if before.contains(x) {
                        assert(before.to_set().contains(x));
                        let t = choose|t: int| 0 <= t < k && da@.take(k as int)[t] == x;
                        assert(da@[t] == da@[k as int]);
                    }
                }
                assert(inter@.no_duplicates()) by {
                    assert forall|i: int, j: int| 0 <= i < j < inter@.len() implies inter@[i] != inter@[j] by {
                        if j == inter@.len() - 1 {
                            assert(before.contains(before[i]));
                        }
                    }
                }
                assert(inter@.to_set() =~= da@.take(k + 1).to_set().intersect(sb));
            }
        } else {
            proof {
                assert(!sb.contains(x));
                assert(inter@.to_set() =~= da@.take(k + 1).to_set().intersect(sb));
            }
        }
        k = k + 1;
    }
    assert(da@.take(da@.len() as int) =~= da@);
    // union
    let mut uni: Vec<SignalId> = Vec::new();
    let mut m: usize = 0;
    while m < da.len()
        invariant
            m <= da@.len(),
            da@.no_duplicates(),
            uni@ == da@.take(m as int),
        decreases da@.len() - m,
    {
        uni.push(da[m]);
        assert(uni@ =~= da@.take(m + 1));
        m = m + 1;
    }
    assert(da@.take(da@.len() as int) =~= da@);
    let mut j: usize = 0;
    assert(db@.take(0).to_set() =~= Set::<SignalId>::empty());
    assert(uni@.to_set() =~= sa.union(Set::<SignalId>::empty()));
    while j < db.len()
        invariant
            j <= db@.len(),
            da@.to_set() == sa,
            db@.no_duplicates(),
            db@.to_set() == sb,
            uni@.no_duplicates(),
            uni@.to_set() == sa.union(db@.take(j as int).to_set()),
        decreases db@.len() - j,
    {
        let x = db[j];
        proof {
            assert(db@.take(j + 1) =~= db@.take(j as int).push(x));
            db@.take(j as int).lemma_push_to_set_commute(x);
        }
        if !contains_id(&da, x) {
            let ghost before = uni@;
            uni.push(x);
            proof {
                before.lemma_push_to_set_commute(x);
                assert(!before.contains(x)) by {
                    if before.contains(x) {
                        assert(before.to_set().contains(x));
                        if !sa.contains(x) {
                            let t = choose|t: int| 0 <= t < j && db@.take(j as int)[t] == x;
                            assert(db@[t] == db@[j as int]);
                        }
                    }
                }
                assert(uni@.no_duplicates()) by {
                    assert forall|a1: int, b1: int| 0 <= a1 < b1 < uni@.len() implies uni@[a1] != uni@[b1] by {
                        if b1 == uni@.len() - 1 {
                            assert(before.contains(before[a1]));
                        }
                    }
                }
                assert(uni@.to_set() =~= sa.union(db@.take(j + 1).to_set()));
            }
        } else {
            proof {
                assert(uni@.to_set() =~= sa.union(db@.take(j + 1).to_set()));
            }
        }
        j = j + 1;
    }
    assert(db@.take(db@.len() as int) =~= db@);
    proof {
        inter@.unique_seq_to_set();
        uni@.unique_seq_to_set();
        assert(inter@.to_set() =~= sa.intersect(sb));
    }
    (inter.len(), uni.len())
}

} // verus!
