//! The pattern index: every discovered pattern record, merged by exact id or
//! by signal-set similarity.
use vstd::prelude::*;
use std::collections::HashSet;
use crate::signal::types::SignalId;
use vstd::seq_lib::{to_multiset_insert, to_multiset_build};
use crate::pattern::record::{
    PatternRecord, TemporalShape, overlap, insert_all, count_action,
};

verus! {

broadcast use vstd::std_specs::hash::group_hash_axioms;

/// How many observations make a pattern salient.
pub const SALIENCE_FREQUENCY_FLOOR: u32 = 5;

/// Whether `r` is similar enough to the signal set `probe` to absorb it:
/// Jaccard similarity of at least three quarters.
pub open spec fn qualifies(probe: Seq<SignalId>, r: PatternRecord) -> bool {
    let (i, u) = overlap(r.signal_set@, probe);
    u > 0 && 4 * i >= 3 * u
}

/// Whether `a` is at least as similar to `probe` as `b` is (Jaccard ratios
/// compared by cross-multiplication).
pub open spec fn at_least_as_similar(probe: Seq<SignalId>, a: PatternRecord, b: PatternRecord) -> bool {
    let (ia, ua) = overlap(a.signal_set@, probe);
    let (ib, ub) = overlap(b.signal_set@, probe);
    ia * ub >= ib * ua
}

/// `r` is a record first seen at `tick`, built from one observation.
pub open spec fn is_fresh(
    r: PatternRecord,
    id: u64,
    signal_set: Seq<SignalId>,
    shapes: Seq<(u32, TemporalShape)>,
    action: Option<u32>,
    tick: u64,
) -> bool {
    &&& r.id == id
    &&& r.signal_set@ == signal_set
    &&& r.frequency == 1
    &&& r.shapes@ == insert_all(Map::empty(), shapes)
    &&& r.co_actions@ == count_action(Map::empty(), action)
    &&& r.first_seen == tick
    &&& r.last_seen == tick
}

/// `s1` is `s0` after integrating an observation of pattern `pattern_id`
/// (signal set `signal_set`), which landed in the record with id `r`: a
/// record with the same id absorbs it; otherwise the qualifying record most
/// similar to the signal set does; otherwise a fresh record is appended.
pub open spec fn integrated(
    s0: Seq<PatternRecord>,
    s1: Seq<PatternRecord>,
    pattern_id: u64,
    signal_set: Seq<SignalId>,
    shapes: Seq<(u32, TemporalShape)>,
    action_id: Option<u32>,
    tick: u64,
    r: u64,
) -> bool {
    if exists|i: int| 0 <= i < s0.len() && s0[i].id == pattern_id {
        &&& r == pattern_id
        &&& s1.len() == s0.len()
        &&& forall|i: int| 0 <= i < s0.len() ==> (if s0[i].id == pattern_id {
            PatternRecord::is_merge_of(s1[i], s0[i], shapes, action_id, tick)
        } else {
            s1[i] == s0[i]
        })
    } else if exists|i: int| 0 <= i < s0.len() && qualifies(signal_set, #[trigger] s0[i]) {
        exists|j: int| {
            &&& 0 <= j < s0.len()
            &&& s0[j].id == r
            &&& qualifies(signal_set, s0[j])
            &&& (forall|t: int| 0 <= t < s0.len() && qualifies(signal_set, #[trigger] s0[t])
                ==> at_least_as_similar(signal_set, s0[j], s0[t]))
            &&& s1.len() == s0.len()
            &&& PatternRecord::is_merge_of(s1[j], s0[j], shapes, action_id, tick)
            &&& (forall|t: int| 0 <= t < s0.len() && t != j ==> s1[t] == s0[t])
        }
    } else {
        &&& r == pattern_id
        &&& s1.len() == s0.len() + 1
        &&& s1.drop_last() == s0
        &&& is_fresh(s1.last(), pattern_id, signal_set, shapes, action_id, tick)
    }
}

/// The record with id `id` in `s`, if any.
pub open spec fn find_in(s: Seq<PatternRecord>, id: u64) -> Option<PatternRecord>
    decreases s.len(),
{
    if s.len() == 0 {
        None
    } else if s.last().id == id {
        Some(s.last())
    } else {
        find_in(s.drop_last(), id)
    }
}

pub open spec fn ids_unique(s: Seq<PatternRecord>) -> bool {
    forall|i: int, j: int| 0 <= i < j < s.len() ==> s[i].id != s[j].id
}

pub proof fn lemma_find_at(s: Seq<PatternRecord>, i: int)
    requires
        ids_unique(s),
        0 <= i < s.len(),
    ensures
        find_in(s, s[i].id) == Some(s[i]),
    decreases s.len(),
{
    if i < s.len() - 1 {
        lemma_find_at(s.drop_last(), i);
    }
}

pub proof fn lemma_find_absent(s: Seq<PatternRecord>, id: u64)
    requires
        forall|i: int| 0 <= i < s.len() ==> s[i].id != id,
    ensures
        find_in(s, id) is None,
    decreases s.len(),
{
    if s.len() > 0 {
        lemma_find_absent(s.drop_last(), id);
    }
}

/// Keeping some of the records keeps their ids unique.
pub proof fn lemma_filter_ids_unique(s: Seq<PatternRecord>, p: spec_fn(PatternRecord) -> bool)
    requires
        ids_unique(s),
    ensures
        ids_unique(s.filter(p)),
    decreases s.len(),
{
    reveal(Seq::filter);
    if s.len() > 0 {
        let d = s.drop_last();
        lemma_filter_ids_unique(d, p);
        let fd = d.filter(p);
        if p(s.last()) {
            assert forall|i: int| 0 <= i < fd.len() implies fd[i].id != s.last().id by {
                assert(fd.contains(fd[i]));
                d.lemma_filter_contains_rev(p, fd[i]);
                let j = choose|j: int| 0 <= j < d.len() && d[j] == fd[i];
                assert(s[j] == d[j]);
            }
            assert(s.filter(p) == fd.push(s.last()));
        } else {
            assert(s.filter(p) == fd);
        }
    }
}

/// `a / b >= c / d >= e / f` gives `a / b >= e / f` for positive denominators.
proof fn lemma_ratio_trans(a: int, b: int, c: int, d: int, e: int, f: int)
    requires
        b > 0,
        d > 0,
        f > 0,
        a * d >= c * b,
        c * f >= e * d,
    ensures
        a * f >= e * b,
{
    assert(a * d * f >= c * b * f) by (nonlinear_arith)
        requires a * d >= c * b, f > 0;
    assert(c * f * b >= e * d * b) by (nonlinear_arith)
        requires c * f >= e * d, b > 0;
    assert(a * f * d >= e * b * d) by (nonlinear_arith)
        requires a * d * f >= c * b * f, c * f * b >= e * d * b;
    assert(a * f >= e * b) by (nonlinear_arith)
        requires a * f * d >= e * b * d, d > 0;
}

/// The product of two 64-bit values fits in 128 bits.
proof fn lemma_wide_product(a: u128, b: u128)
    requires
        a <= 0xffff_ffff_ffff_ffffu128,
        b <= 0xffff_ffff_ffff_ffffu128,
    ensures
        a * b <= u128::MAX,
{
    assert(a * b <= 0xffff_ffff_ffff_ffffu128 * 0xffff_ffff_ffff_ffffu128) by (nonlinear_arith)
        requires a <= 0xffff_ffff_ffff_ffffu128, b <= 0xffff_ffff_ffff_ffffu128;
}

/// A similarity hit: pattern id, intersection size and union size.
pub type Hit = (u64, usize, usize);

/// Numerator of a hit's similarity (an empty union counts as zero similarity).
pub open spec fn hit_num(h: Hit) -> int {
    if h.2 == 0 { 0 } else { h.1 as int }
}

/// Denominator of a hit's similarity.
pub open spec fn hit_den(h: Hit) -> int {
    if h.2 == 0 { 1 } else { h.2 as int }
}

/// Whether hit `a` is at least as similar as hit `b`.
pub open spec fn hit_ge(a: Hit, b: Hit) -> bool {
    hit_num(a) * hit_den(b) >= hit_num(b) * hit_den(a)
}

/// Whether `s` is ordered from most to least similar.
pub open spec fn hits_sorted(s: Seq<Hit>) -> bool {
    forall|i: int, j: int| 0 <= i < j < s.len() ==> hit_ge(s[i], s[j])
}

/// The hit of record `r` against the live signal set `live`.
pub open spec fn hit_of(live: Seq<SignalId>, r: PatternRecord) -> Hit {
    (r.id, overlap(r.signal_set@, live).0 as usize, overlap(r.signal_set@, live).1 as usize)
}

/// Whether record `r`'s similarity to `live` reaches `num / den`.
pub open spec fn reaches(live: Seq<SignalId>, r: PatternRecord, num: u64, den: u64) -> bool {
    let (i, u) = overlap(r.signal_set@, live);
    if u == 0 { num == 0 } else { i * den >= num * u }
}

pub open spec fn reaches_pred(live: Seq<SignalId>, num: u64, den: u64) -> spec_fn(PatternRecord) -> bool {
    |r: PatternRecord| reaches(live, r, num, den)
}

pub open spec fn hit_fn(live: Seq<SignalId>) -> spec_fn(PatternRecord) -> Hit {
    |r: PatternRecord| hit_of(live, r)
}

/// Whether `r` has been observed often enough to be salient.
pub open spec fn salient_pred() -> spec_fn(PatternRecord) -> bool {
    |r: PatternRecord| r.frequency >= SALIENCE_FREQUENCY_FLOOR
}

/// Whether `r` is unprotected and unseen for longer than `age_threshold`.
pub open spec fn is_stale(r: PatternRecord, current_tick: u64, age_threshold: u64, protected: Set<u64>) -> bool {
    !protected.contains(r.id) && (if current_tick >= r.last_seen { current_tick - r.last_seen } else { 0 }) > age_threshold
}

pub open spec fn fresh_pred(current_tick: u64, age_threshold: u64, protected: Set<u64>) -> spec_fn(PatternRecord) -> bool {
    |r: PatternRecord| !is_stale(r, current_tick, age_threshold, protected)
}

pub open spec fn stale_pred(current_tick: u64, age_threshold: u64, protected: Set<u64>) -> spec_fn(PatternRecord) -> bool {
    |r: PatternRecord| is_stale(r, current_tick, age_threshold, protected)
}

/// Whether hit `a` is strictly more similar than hit `b`.
fn more_similar(a: Hit, b: Hit) -> (r: bool)
    ensures
        r == !hit_ge(b, a),
{
    let (an, ad): (u128, u128) = if a.2 == 0 { (0, 1) } else { (a.1 as u128, a.2 as u128) };
    let (bn, bd): (u128, u128) = if b.2 == 0 { (0, 1) } else { (b.1 as u128, b.2 as u128) };
    proof {
        lemma_wide_product(an, bd);
        lemma_wide_product(bn, ad);
    }
    an * bd > bn * ad
}

/// Insert `h` into the sorted `v` after every hit at least as similar.
fn insert_sorted(v: &mut Vec<Hit>, h: Hit)
    requires
        hits_sorted(old(v)@),
    ensures
        hits_sorted(final(v)@),
        final(v)@.to_multiset() == old(v)@.to_multiset().insert(h),
{
    let ghost s = v@;
    let mut p: usize = 0;
    while p < v.len()
        invariant
            v@ == s,
            p <= s.len(),
            forall|q: int| 0 <= q < p ==> hit_ge(s[q], h),
        ensures
            v@ == s,
            p <= s.len(),
            forall|q: int| 0 <= q < p ==> hit_ge(s[q], h),
            p < s.len() ==> !hit_ge(s[p as int], h),
        decreases s.len() - p,
    {
        if more_similar(h, v[p]) {
            break;
        }
        p = p + 1;
    }
    proof {
        assert forall|q: int| p <= q < s.len() implies hit_ge(h, s[q]) by {
            assert(!hit_ge(s[p as int], h));
            if q > p {
                assert(hit_ge(s[p as int], s[q]));
                lemma_ratio_trans(hit_num(h), hit_den(h), hit_num(s[p as int]), hit_den(s[p as int]),
                    hit_num(s[q]), hit_den(s[q]));
            }
        }
    }
    v.insert(p, h);
    proof {
        to_multiset_insert(s, p as int, h);
        let t = v@;
        assert forall|i: int, j: int| 0 <= i < j < t.len() implies hit_ge(t[i], t[j]) by {
            if j < p {
            } else if i < p && j == p {
            } else if i < p {
                assert(t[j] == s[j - 1]);
                assert(hit_ge(s[i], s[j - 1]));
            } else if i == p {
                assert(t[j] == s[j - 1]);
            } else {
                assert(t[i] == s[i - 1] && t[j] == s[j - 1]);
            }
        }
    }
}

/// Stores and indexes all discovered pattern records (ids are unique).
pub struct PatternIndex {
    records: Vec<PatternRecord>,
}

impl PatternIndex {
    /// The records, in the order they were first indexed.
    pub closed spec fn records(&self) -> Seq<PatternRecord> {
        self.records@
    }

    pub closed spec fn wf(&self) -> bool {
        ids_unique(self.records@)
    }

    /// The record with id `id`, if indexed.
    pub open spec fn lookup(&self, id: u64) -> Option<PatternRecord> {
        find_in(self.records(), id)
    }

    /// Whether every record can take one more observation of `action`
    /// without a counter overflowing.
    pub open spec fn can_absorb(&self, action: Option<u32>) -> bool {
        forall|i: int| 0 <= i < self.records().len() ==> (#[trigger] self.records()[i]).can_merge(action)
    }

    pub proof fn lemma_wf_facts(&self)
        requires
            self.wf(),
        ensures
            ids_unique(self.records()),
    {
    }

    pub fn new() -> (r: PatternIndex)
        ensures
            r.wf(),
            r.records() == Seq::<PatternRecord>::empty(),
    {
        PatternIndex { records: Vec::new() }
    }

    /// An index holding `records` (as saved); `None` when two of them share an id.
    pub fn restore(records: Vec<PatternRecord>) -> (r: Option<PatternIndex>)
        ensures
            r is Some <==> ids_unique(records@),
            r matches Some(ix) ==> ix.wf() && ix.records() == records@,
    {
        let mut k: usize = 0;
        while k < records.len()
            invariant
                k <= records@.len(),
                forall|i: int, j: int| 0 <= i < j < records@.len() && i < k ==> records@[i].id != records@[j].id,
            decreases records@.len() - k,
        {
            let mut j: usize = k + 1;
            while j < records.len()
                invariant
                    k < records@.len(),
                    k + 1 <= j <= records@.len(),
                    forall|t: int| k < t < j ==> records@[k as int].id != records@[t].id,
                decreases records@.len() - j,
            {
                if records[k].id == records[j].id {
                    return None;
                }
                j = j + 1;
            }
            k = k + 1;
        }
        Some(PatternIndex { records })
    }

    fn position(&self, id: u64) -> (r: Option<usize>)
        ensures
            match r {
                Some(i) => i < self.records@.len() && self.records@[i as int].id == id,
                None => forall|t: int| 0 <= t < self.records@.len() ==> self.records@[t].id != id,
            },
    {
        let mut i: usize = 0;
        while i < self.records.len()
            invariant
                i <= self.records@.len(),
                forall|t: int| 0 <= t < i ==> self.records@[t].id != id,
            decreases self.records@.len() - i,
        {
            if self.records[i].id == id {
                return Some(i);
            }
            i = i + 1;
        }
        None
    }

    /// The index of the record most similar to `probe` among those that
    /// qualify, if any qualifies.
    fn best_match(&self, probe: &[SignalId]) -> (r: Option<usize>)
        ensures
            match r {
                Some(j) => {
                    &&& j < self.records@.len()
                    &&& qualifies(probe@, self.records@[j as int])
                    &&& forall|t: int| 0 <= t < self.records@.len() && qualifies(probe@, #[trigger] self.records@[t])
                        ==> at_least_as_similar(probe@, self.records@[j as int], self.records@[t])
                },
                None => forall|t: int| 0 <= t < self.records@.len() ==> !qualifies(probe@, #[trigger] self.records@[t]),
            },
    {
        let s = &self.records;
        let mut best: Option<(usize, usize, usize)> = None;
        let mut k: usize = 0;
        while k < s.len()
            invariant
                k <= s@.len(),
                match best {
                    Some((j, bi, bu)) => {
                        &&& j < k
                        &&& bi as nat == overlap(s@[j as int].signal_set@, probe@).0
                        &&& bu as nat == overlap(s@[j as int].signal_set@, probe@).1
                        &&& qualifies(probe@, s@[j as int])
                        &&& forall|t: int| 0 <= t < k && qualifies(probe@, #[trigger] s@[t])
                            ==> at_least_as_similar(probe@, s@[j as int], s@[t])
                    },
                    None => forall|t: int| 0 <= t < k ==> !qualifies(probe@, #[trigger] s@[t]),
                },
            decreases s@.len() - k,
        {
            let (inter, uni) = s[k].similarity_to_live(probe);
            let i128v: u128 = inter as u128;
            let u128v: u128 = uni as u128;
            if uni > 0 && 4 * i128v >= 3 * u128v {
                let take = match best {
                    None => true,
                    Some((_, bi, bu)) => {
                        proof {
                            lemma_wide_product(i128v, bu as u128);
                            lemma_wide_product(bi as u128, u128v);
                        }
                        i128v * (bu as u128) > (bi as u128) * u128v
                    },
                };
                if take {
                    proof {
                        if let Some((j, bi, bu)) = best {
                            assert forall|t: int| 0 <= t < k + 1 && qualifies(probe@, #[trigger] s@[t])
                                implies at_least_as_similar(probe@, s@[k as int], s@[t]) by {
                                if t < k {
                                    let (it, ut) = overlap(s@[t].signal_set@, probe@);
                                    lemma_ratio_trans(inter as int, uni as int, bi as int, bu as int, it as int, ut as int);
                                }
                            }
                        }
                    }
                    best = Some((k, inter, uni));
                } else {
                    proof {
                        if let Some((j, bi, bu)) = best {
                            assert(at_least_as_similar(probe@, s@[j as int], s@[k as int]));
                        }
                    }
                }
            }
            k = k + 1;
        }
        match best {
            Some((j, _, _)) => Some(j),
            None => None,
        }
    }

    /// Integrate one extracted pattern. A record with the same id absorbs it;
    /// otherwise the qualifying record most similar to its signal set does;
    /// otherwise it becomes a new record. Returns the id of the record that
    /// holds it.
    pub fn integrate(
        &mut self,
        pattern_id: u64,
        signal_set: Vec<SignalId>,
        shapes: Vec<(u32, TemporalShape)>,
        action_id: Option<u32>,
        tick: u64,
    ) -> (r: u64)
        requires
            old(self).wf(),
            old(self).can_absorb(action_id),
        ensures
            final(self).wf(),
            integrated(old(self).records(), final(self).records(), pattern_id, signal_set@, shapes@, action_id, tick, r),
    {
        let ghost s0 = self.records@;
        match self.position(pattern_id) {
            Some(i) => {
                proof {
                    assert(self.records()[i as int].can_merge(action_id));
                }
                self.records[i].merge_observation(shapes.as_slice(), action_id, tick);
                proof {
                    assert forall|a: int, b: int| 0 <= a < b < self.records@.len() implies
                        self.records@[a].id != self.records@[b].id by {
                        assert(s0[a].id != s0[b].id);
                    }
                    assert forall|t: int| 0 <= t < s0.len() implies (if s0[t].id == pattern_id {
                        PatternRecord::is_merge_of(self.records@[t], s0[t], shapes@, action_id, tick)
                    } else {
                        self.records@[t] == s0[t]
                    }) by {
                        if t != i && s0[t].id == pattern_id {
                            assert(s0[t].id != s0[i as int].id);
                        }
                    }
                }
                pattern_id
            },
            None => {
                match self.best_match(signal_set.as_slice()) {
                    Some(j) => {
                        proof {
                            assert(self.records()[j as int].can_merge(action_id));
                        }
                        let rid = self.records[j].id;
                        self.records[j].merge_observation(shapes.as_slice(), action_id, tick);
                        proof {
                            assert forall|a: int, b: int| 0 <= a < b < self.records@.len() implies
                                self.records@[a].id != self.records@[b].id by {
                                assert(s0[a].id != s0[b].id);
                            }
                            assert(qualifies(signal_set@, s0[j as int]));
                        }
                        rid
                    },
                    None => {
                        let mut rec = PatternRecord::new(pattern_id, signal_set, tick);
                        rec.record_shapes(shapes.as_slice());
                        rec.record_action(action_id);
                        self.records.push(rec);
                        proof {
                            assert(self.records@.drop_last() =~= s0);
                        }
                        pattern_id
                    },
                }
            },
        }
    }

    /// The record with id `id`.
    pub fn get(&self, id: u64) -> (r: Option<&PatternRecord>)
        requires
            self.wf(),
        ensures
            match r {
                Some(x) => self.lookup(id) == Some(*x),
                None => self.lookup(id) is None,
            },
    {
        match self.position(id) {
            Some(i) => {
                proof { lemma_find_at(self.records@, i as int); }
                Some(&self.records[i])
            },
            None => {
                proof { lemma_find_absent(self.records@, id); }
                None
            },
        }
    }

    /// All records.
    pub fn all(&self) -> (r: &Vec<PatternRecord>)
        ensures
            r@ == self.records(),
    {
        &self.records
    }

    /// Patterns observed at least `SALIENCE_FREQUENCY_FLOOR` times.
    pub fn salient(&self) -> (r: Vec<&PatternRecord>)
        ensures
            r@.map_values(|x: &PatternRecord| *x) == self.records().filter(salient_pred()),
    {
        let mut r: Vec<&PatternRecord> = Vec::new();
        let mut k: usize = 0;
        let ghost s0 = self.records@;
        let ghost pred = salient_pred();
        while k < self.records.len()
            invariant
                s0 == self.records@,
                k <= s0.len(),
                pred == salient_pred(),
                r@.map_values(|x: &PatternRecord| *x) == s0.take(k as int).filter(pred),
            decreases s0.len() - k,
        {
            assert(s0.take(k + 1) =~= s0.take(k as int).push(s0[k as int]));
            proof {
                s0.take(k as int).lemma_filter_push(s0[k as int], pred);
            }
            if self.records[k].frequency >= SALIENCE_FREQUENCY_FLOOR {
                r.push(&self.records[k]);
                assert(r@.map_values(|x: &PatternRecord| *x) =~= s0.take(k + 1).filter(pred));
            }
            k = k + 1;
        }
        assert(s0.take(s0.len() as int) =~= s0);
        r
    }

    /// The records whose similarity to the live signal set reaches
    /// `threshold_num / threshold_den`, most similar first.
    pub fn find_similar(&self, live: &[SignalId], threshold_num: u64, threshold_den: u64) -> (r: Vec<Hit>)
        requires
            threshold_den > 0,
        ensures
            hits_sorted(r@),
            r@.to_multiset() == self.records().filter(reaches_pred(live@, threshold_num, threshold_den)).map_values(
                hit_fn(live@),
            ).to_multiset(),
    {
        let mut r: Vec<Hit> = Vec::new();
        let mut k: usize = 0;
        let ghost s0 = self.records@;
        let ghost pred = reaches_pred(live@, threshold_num, threshold_den);
        let ghost f = hit_fn(live@);
        proof {
            assert(s0.take(0) =~= Seq::<PatternRecord>::empty());
            assert(s0.take(0).filter(pred) =~= Seq::<PatternRecord>::empty()) by {
                s0.take(0).lemma_filter_len(pred);
            }
            assert(s0.take(0).filter(pred).map_values(f) =~= r@);
        }
        while k < self.records.len()
            invariant
                s0 == self.records@,
                k <= s0.len(),
                pred == reaches_pred(live@, threshold_num, threshold_den),
                f == hit_fn(live@),
                hits_sorted(r@),
                r@.to_multiset() == s0.take(k as int).filter(pred).map_values(f).to_multiset(),
            decreases s0.len() - k,
        {
            let x = &self.records[k];
            assert(s0.take(k + 1) =~= s0.take(k as int).push(s0[k as int]));
            proof {
                s0.take(k as int).lemma_filter_push(s0[k as int], pred);
            }
            let (inter, uni) = x.similarity_to_live(live);
            let ok = if uni == 0 {
                threshold_num == 0
            } else {
                proof {
                    lemma_wide_product(inter as u128, threshold_den as u128);
                    lemma_wide_product(threshold_num as u128, uni as u128);
                }
                (inter as u128) * (threshold_den as u128) >= (threshold_num as u128) * (uni as u128)
            };
            if ok {
                let h: Hit = (x.id, inter, uni);
                proof {
                    let fs = s0.take(k as int).filter(pred);
                    assert(fs.push(s0[k as int]).map_values(f) =~= fs.map_values(f).push(h));
                    to_multiset_build(fs.map_values(f), h);
                }
                insert_sorted(&mut r, h);
            }
            k = k + 1;
        }
        assert(s0.take(s0.len() as int) =~= s0);
        r
    }

    /// Forget unprotected patterns unseen for longer than `age_threshold`
    /// ticks. Returns how many were forgotten.
    pub fn prune_stale(&mut self, current_tick: u64, age_threshold: u64, protected: &HashSet<u64>) -> (n: usize)
        requires
            old(self).wf(),
        ensures
            final(self).wf(),
            final(self).records() == old(self).records().filter(fresh_pred(current_tick, age_threshold, protected@)),
            n == old(self).records().filter(stale_pred(current_tick, age_threshold, protected@)).len(),
    {
        let ghost s0 = self.records@;
        let ghost keep = fresh_pred(current_tick, age_threshold, protected@);
        let ghost stale = stale_pred(current_tick, age_threshold, protected@);
        let mut old_recs: Vec<PatternRecord> = Vec::new();
        std::mem::swap(&mut old_recs, &mut self.records);
        let n = old_recs.len();
        let mut remaining: Vec<PatternRecord> = Vec::new();
        // Move the records out in reverse so that they can be taken one by one from the back.
        while old_recs.len() > 0
            invariant
                old_recs@ + remaining@.reverse() == s0,
            decreases old_recs.len(),
        {
            let x = old_recs.pop().unwrap();
            remaining.push(x);
            assert(old_recs@ + remaining@.reverse() =~= s0);
        }
        assert(remaining@.reverse() =~= s0);
        let mut kept: Vec<PatternRecord> = Vec::new();
        let mut count: usize = 0;
        let mut k: usize = 0;
        while k < n
            invariant
                n == s0.len(),
                k <= n,
                remaining@.len() == n - k,
                forall|t: int| 0 <= t < n - k ==> remaining@[t] == s0[n - 1 - t],
                kept@ == s0.take(k as int).filter(keep),
                count == s0.take(k as int).filter(stale).len(),
                count <= k,
                keep == fresh_pred(current_tick, age_threshold, protected@),
                stale == stale_pred(current_tick, age_threshold, protected@),
            decreases n - k,
        {
            let x = remaining.pop().unwrap();
            assert(x == s0[k as int]);
            assert(s0.take(k + 1) =~= s0.take(k as int).push(x));
            proof {
                s0.take(k as int).lemma_filter_push(x, keep);
                s0.take(k as int).lemma_filter_push(x, stale);
            }
            let gone = !protected.contains(&x.id) && current_tick.saturating_sub(x.last_seen) > age_threshold;
            if gone {
                count = count + 1;
            } else {
                kept.push(x);
            }
            k = k + 1;
        }
        assert(s0.take(n as int) =~= s0);
        self.records = kept;
        proof {
            let s1 = self.records@;
            assert forall|a: int, b: int| 0 <= a < b < s1.len() implies s1[a].id != s1[b].id by {
                lemma_filter_ids_unique(s0, keep);
            }
        }
        count
    }

    pub fn len(&self) -> (n: usize)
        ensures
            n == self.records().len(),
    {
        self.records.len()
    }
}

/// Integration never loses a pattern: every record keeps its place and id.
pub proof fn law_integrate_keeps_records(
    s0: Seq<PatternRecord>,
    s1: Seq<PatternRecord>,
    pattern_id: u64,
    signal_set: Seq<SignalId>,
    shapes: Seq<(u32, TemporalShape)>,
    action_id: Option<u32>,
    tick: u64,
    r: u64,
)
    requires
        integrated(s0, s1, pattern_id, signal_set, shapes, action_id, tick, r),
    ensures
        s1.len() >= s0.len(),
        forall|i: int| 0 <= i < s0.len() ==> s1[i].id == s0[i].id,
{
    if exists|i: int| 0 <= i < s0.len() && s0[i].id == pattern_id {
    } else if exists|i: int| 0 <= i < s0.len() && qualifies(signal_set, #[trigger] s0[i]) {
        let j = choose|j: int| {
            &&& 0 <= j < s0.len()
            &&& s0[j].id == r
            &&& qualifies(signal_set, s0[j])
            &&& (forall|t: int| 0 <= t < s0.len() && qualifies(signal_set, #[trigger] s0[t])
                ==> at_least_as_similar(signal_set, s0[j], s0[t]))
            &&& s1.len() == s0.len()
            &&& PatternRecord::is_merge_of(s1[j], s0[j], shapes, action_id, tick)
            &&& (forall|t: int| 0 <= t < s0.len() && t != j ==> s1[t] == s0[t])
        };
    } else {
        assert forall|i: int| 0 <= i < s0.len() implies s1[i].id == s0[i].id by {
            assert(s1.drop_last()[i] == s1[i]);
        }
    }
}

/// After integrating, the returned id names a record last seen at that tick
/// (read back by `get`).
pub proof fn law_integrate_then_lookup(
    s0: Seq<PatternRecord>,
    s1: Seq<PatternRecord>,
    pattern_id: u64,
    signal_set: Seq<SignalId>,
    shapes: Seq<(u32, TemporalShape)>,
    action_id: Option<u32>,
    tick: u64,
    r: u64,
)
    requires
        ids_unique(s1),
        integrated(s0, s1, pattern_id, signal_set, shapes, action_id, tick, r),
    ensures
        find_in(s1, r) matches Some(rec) && rec.id == r && rec.last_seen == tick,
{
    if exists|i: int| 0 <= i < s0.len() && s0[i].id == pattern_id {
        let i = choose|i: int| 0 <= i < s0.len() && s0[i].id == pattern_id;
        lemma_find_at(s1, i);
    } else if exists|i: int| 0 <= i < s0.len() && qualifies(signal_set, #[trigger] s0[i]) {
        let j = choose|j: int| {
            &&& 0 <= j < s0.len()
            &&& s0[j].id == r
            &&& qualifies(signal_set, s0[j])
            &&& (forall|t: int| 0 <= t < s0.len() && qualifies(signal_set, #[trigger] s0[t])
                ==> at_least_as_similar(signal_set, s0[j], s0[t]))
            &&& s1.len() == s0.len()
            &&& PatternRecord::is_merge_of(s1[j], s0[j], shapes, action_id, tick)
            &&& (forall|t: int| 0 <= t < s0.len() && t != j ==> s1[t] == s0[t])
        };
        lemma_find_at(s1, j);
    } else {
        lemma_find_at(s1, s1.len() - 1);
    }
}

/// Pruning never forgets a protected pattern, and never keeps a stale one.
pub proof fn law_prune_keeps_protected(
    s0: Seq<PatternRecord>,
    s1: Seq<PatternRecord>,
    current_tick: u64,
    age_threshold: u64,
    protected: Set<u64>,
)
    requires
        s1 == s0.filter(fresh_pred(current_tick, age_threshold, protected)),
    ensures
        forall|i: int| 0 <= i < s0.len() && protected.contains(s0[i].id) ==> s1.contains(s0[i]),
        forall|i: int| 0 <= i < s1.len() ==> !is_stale(s1[i], current_tick, age_threshold, protected),
{
    let keep = fresh_pred(current_tick, age_threshold, protected);
    s0.filter_lemma(keep);
    assert forall|i: int| 0 <= i < s0.len() && protected.contains(s0[i].id) implies s1.contains(s0[i]) by {
        assert(keep(s0[i]));
    }
    assert forall|i: int| 0 <= i < s1.len() implies !is_stale(s1[i], current_tick, age_threshold, protected) by {
        assert(keep(s1[i]));
    }
}

} // verus!
