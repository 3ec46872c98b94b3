//! Composition of symbols: pairs of basic symbols that co-activate often
//! enough are coined into composite symbols.
use vstd::prelude::*;
use crate::signal::types::SignalId;
use crate::symbol::ledger::{Symbol, SymbolLedger, composite_pred};

verus! {

/// A co-activation pair, always stored as (lower index, higher index).
pub type Pair = (u32, u32);

/// The pair of `x` and `y` with the lower index first.
pub open spec fn norm(x: u32, y: u32) -> Pair {
    if x <= y { (x, y) } else { (y, x) }
}

/// The map an association list denotes (later entries win; keys are unique
/// in every list this module builds).
pub open spec fn entries_map(s: Seq<(Pair, u64)>) -> Map<Pair, u64>
    decreases s.len(),
{
    if s.len() == 0 {
        Map::empty()
    } else {
        entries_map(s.drop_last()).insert(s.last().0, s.last().1)
    }
}

pub open spec fn keys_unique(s: Seq<(Pair, u64)>) -> bool {
    forall|i: int, j: int| 0 <= i < j < s.len() ==> s[i].0 != s[j].0
}

pub proof fn lemma_entries_has(s: Seq<(Pair, u64)>, i: int)
    requires
        keys_unique(s),
        0 <= i < s.len(),
    ensures
        entries_map(s).contains_key(s[i].0),
        entries_map(s)[s[i].0] == s[i].1,
    decreases s.len(),
{
    if i < s.len() - 1 {
        lemma_entries_has(s.drop_last(), i);
    }
}

pub proof fn lemma_entries_absent(s: Seq<(Pair, u64)>, k: Pair)
    requires
        forall|i: int| 0 <= i < s.len() ==> s[i].0 != k,
    ensures
        !entries_map(s).contains_key(k),
    decreases s.len(),
{
    if s.len() > 0 {
        lemma_entries_absent(s.drop_last(), k);
    }
}

pub proof fn lemma_entries_pos(s: Seq<(Pair, u64)>, k: Pair) -> (i: int)
    requires
        entries_map(s).contains_key(k),
    ensures
        0 <= i < s.len(),
        s[i].0 == k,
    decreases s.len(),
{
    if s.last().0 == k {
        s.len() - 1
    } else {
        lemma_entries_pos(s.drop_last(), k)
    }
}

/// The keys of an association list with unique keys are the domain of its map.
pub proof fn lemma_entries_dom(s: Seq<(Pair, u64)>)
    requires
        keys_unique(s),
    ensures
        forall|k: Pair| entries_map(s).contains_key(k) <==> (exists|i: int| 0 <= i < s.len() && s[i].0 == k),
        forall|i: int| 0 <= i < s.len() ==> #[trigger] entries_map(s)[s[i].0] == s[i].1,
{
    assert forall|k: Pair| entries_map(s).contains_key(k) implies (exists|i: int| 0 <= i < s.len() && s[i].0 == k) by {
        let i = lemma_entries_pos(s, k);
    }
    assert forall|k: Pair| (exists|i: int| 0 <= i < s.len() && s[i].0 == k) implies entries_map(s).contains_key(k) by {
        let i = choose|i: int| 0 <= i < s.len() && s[i].0 == k;
        lemma_entries_has(s, i);
    }
    assert forall|i: int| 0 <= i < s.len() implies #[trigger] entries_map(s)[s[i].0] == s[i].1 by {
        lemma_entries_has(s, i);
    }
}

/// Two association lists with unique keys, the same keys and the same values denote the same map.
pub proof fn lemma_entries_ext(s: Seq<(Pair, u64)>, m: Map<Pair, u64>)
    requires
        keys_unique(s),
        forall|k: Pair| m.contains_key(k) <==> (exists|i: int| 0 <= i < s.len() && s[i].0 == k),
        forall|i: int| 0 <= i < s.len() ==> m[s[i].0] == s[i].1,
    ensures
        entries_map(s) == m,
{
    lemma_entries_dom(s);
    assert forall|k: Pair| #[trigger] entries_map(s).contains_key(k) implies entries_map(s)[k] == m[k] by {
        let i = lemma_entries_pos(s, k);
    }
    assert(entries_map(s) =~= m);
}

/// One co-activation of `p`: counted unless `p` was already composed.
pub open spec fn bump(m: Map<Pair, u64>, composed: Set<Pair>, p: Pair) -> Map<Pair, u64> {
    if composed.contains(p) {
        m
    } else if m.contains_key(p) {
        m.insert(p, (m[p] + 1) as u64)
    } else {
        m.insert(p, 1)
    }
}

/// All co-activations of `ps`, counted in order.
pub open spec fn bump_all(m: Map<Pair, u64>, composed: Set<Pair>, ps: Seq<Pair>) -> Map<Pair, u64>
    decreases ps.len(),
{
    if ps.len() == 0 {
        m
    } else {
        bump_all(bump(m, composed, ps[0]), composed, ps.drop_first())
    }
}

/// The normalised pairs formed by position `i` of `s` with every later position.
pub open spec fn row(s: Seq<u32>, i: int) -> Seq<Pair> {
    Seq::new((s.len() - i - 1) as nat, |t: int| norm(s[i], s[i + 1 + t]))
}

/// The normalised pairs of all positions `i < j` of `s` from row `i` on,
/// in the order `(i, i+1), (i, i+2), ..., (i+1, i+2), ...`.
pub open spec fn rows_from(s: Seq<u32>, i: int) -> Seq<Pair>
    decreases s.len() - i,
{
    if i >= s.len() {
        Seq::empty()
    } else {
        row(s, i) + rows_from(s, i + 1)
    }
}

/// Every pair of positions `i < j` of `s`.
pub open spec fn pairs_of(s: Seq<u32>) -> Seq<Pair> {
    rows_from(s, 0)
}

pub proof fn lemma_rows_len(s: Seq<u32>, i: int)
    requires
        0 <= i <= s.len(),
    ensures
        rows_from(s, i).len() <= (s.len() - i) * s.len(),
    decreases s.len() - i,
{
    if i < s.len() {
        lemma_rows_len(s, i + 1);
        assert((s.len() - i) * s.len() == (s.len() - (i + 1)) * s.len() + s.len()) by (nonlinear_arith);
    }
}

/// Whether the ledger holds `idx` as a basic (non-composite) symbol.
pub open spec fn is_basic_in(symbols: Seq<Symbol>, idx: u32) -> bool {
    crate::symbol::ledger::lookup_in(symbols, idx) matches Some(s) && !s.is_composite
}

/// The signal cluster of symbol `idx`, empty when it does not exist.
pub open spec fn cluster_of(symbols: Seq<Symbol>, idx: u32) -> Seq<SignalId> {
    match crate::symbol::ledger::lookup_in(symbols, idx) {
        Some(s) => s.signal_cluster@,
        None => Seq::empty(),
    }
}

/// The signals of `a` (in order) that also occur in `b`.
pub open spec fn cluster_intersection(a: Seq<SignalId>, b: Seq<SignalId>) -> Seq<SignalId> {
    a.filter(|x: SignalId| b.contains(x))
}

/// Composites with exactly two parents.
pub open spec fn two_parent_composite() -> spec_fn(Symbol) -> bool {
    |s: Symbol| s.is_composite && s.parents@.len() == 2
}

/// The normalised parent pair of a two-parent composite.
pub open spec fn two_parent_pair() -> spec_fn(Symbol) -> Pair {
    |s: Symbol| norm(s.parents@[0], s.parents@[1])
}

/// The parent pairs of all two-parent composites in `symbols`.
pub open spec fn seed_pairs(symbols: Seq<Symbol>) -> Seq<Pair> {
    symbols.filter(two_parent_composite()).map_values(two_parent_pair())
}

/// Whether `x` occurs in `s`.
fn slice_contains(s: &[u32], x: u32) -> (r: bool)
    ensures
        r == s@.contains(x),
{
    let mut i: usize = 0;
    while i < s.len()
        invariant
            i <= s@.len(),
            forall|t: int| 0 <= t < i ==> s@[t] != x,
        decreases s@.len() - i,
    {
        if s[i] == x {
            assert(s@[i as int] == x);
            return true;
        }
        i = i + 1;
    }
    false
}

pub proof fn lemma_entries_remove(s: Seq<(Pair, u64)>, i: int)
    requires
        keys_unique(s),
        0 <= i < s.len(),
    ensures
        keys_unique(s.remove(i)),
        entries_map(s.remove(i)) == entries_map(s).remove(s[i].0),
{
    let r = s.remove(i);
    assert forall|t: int| 0 <= t < r.len() implies r[t] == (if t < i { s[t] } else { s[t + 1] }) by {}
    assert(keys_unique(r)) by {
        assert forall|a: int, b: int| 0 <= a < b < r.len() implies r[a].0 != r[b].0 by {
            let sa = if a < i { a } else { a + 1 };
            let sb = if b < i { b } else { b + 1 };
            assert(s[sa].0 != s[sb].0);
        }
    }
    lemma_entries_dom(s);
    let m = entries_map(s).remove(s[i].0);
    assert forall|k: Pair| m.contains_key(k) <==> (exists|t: int| 0 <= t < r.len() && r[t].0 == k) by {
        if m.contains_key(k) {
            let t = choose|t: int| 0 <= t < s.len() && s[t].0 == k;
            assert(t != i);
            let u = if t < i { t } else { t - 1 };
            assert(r[u].0 == k);
        }
        if exists|t: int| 0 <= t < r.len() && r[t].0 == k {
            let t = choose|t: int| 0 <= t < r.len() && r[t].0 == k;
            let st = if t < i { t } else { t + 1 };
            assert(s[st].0 == k);
            assert(s[st].0 != s[i].0);
        }
    }
    assert forall|t: int| 0 <= t < r.len() implies m[r[t].0] == r[t].1 by {
        let st = if t < i { t } else { t + 1 };
        assert(s[st].0 != s[i].0);
    }
    lemma_entries_ext(r, m);
}

/// Coining composites for the pairs `ps`, in order, starting from the ledger
/// contents `s0` whose next index is `n0`, produced the contents `s1`: one
/// fresh composite per pair, with consecutive indices, each grounded in the
/// intersection of its parents' clusters as the ledger stood when it was coined.
pub open spec fn composed_in_order(s0: Seq<Symbol>, n0: u32, ps: Seq<Pair>, s1: Seq<Symbol>, tick: u64) -> bool {
    &&& s1.len() == s0.len() + ps.len()
    &&& s1.take(s0.len() as int) == s0
    &&& forall|i: int| #![trigger s1[s0.len() + i]] 0 <= i < ps.len() ==> s1[s0.len() + i].is_fresh_composite(
        (n0 + i) as u32,
        seq![ps[i].0, ps[i].1],
        cluster_intersection(
            cluster_of(s1.take(s0.len() + i), ps[i].0),
            cluster_of(s1.take(s0.len() + i), ps[i].1),
        ),
        tick,
    )
}

/// Coining in order adds exactly one composite per pair to the first `k`
/// pairs' worth of new symbols.
proof fn lemma_composed_count_upto(s0: Seq<Symbol>, n0: u32, ps: Seq<Pair>, s1: Seq<Symbol>, tick: u64, k: nat)
    requires
        composed_in_order(s0, n0, ps, s1, tick),
        k <= ps.len(),
    ensures
        s1.take(s0.len() + k as int).filter(composite_pred()).len() == s0.filter(composite_pred()).len() + k,
    decreases k,
{
    if k == 0 {
        assert(s1.take(s0.len() as int) == s0);
    } else {
        let i = (k - 1) as int;
        lemma_composed_count_upto(s0, n0, ps, s1, tick, (k - 1) as nat);
        let x = s1[s0.len() + i];
        assert(x.is_composite);
        assert(s1.take(s0.len() + k as int) =~= s1.take(s0.len() + i).push(x));
        s1.take(s0.len() + i).lemma_filter_push(x, composite_pred());
    }
}

/// Coining composites for `ps` in order adds exactly `ps.len()` composites.
proof fn lemma_composed_count(s0: Seq<Symbol>, n0: u32, ps: Seq<Pair>, s1: Seq<Symbol>, tick: u64)
    requires
        composed_in_order(s0, n0, ps, s1, tick),
    ensures
        s1.filter(composite_pred()).len() == s0.filter(composite_pred()).len() + ps.len(),
{
    lemma_composed_count_upto(s0, n0, ps, s1, tick, ps.len());
    assert(s1.take(s1.len() as int) =~= s1);
}

fn cluster_contains(v: &Vec<SignalId>, x: SignalId) -> (r: bool)
    ensures
        r == v@.contains(x),
{
    let mut i: usize = 0;
    while i < v.len()
        invariant
            i <= v@.len(),
            forall|t: int| 0 <= t < i ==> v@[t] != x,
        decreases v@.len() - i,
    {
        if v[i].0 == x.0 {
            assert(v@[i as int] == x);
            return true;
        }
        i = i + 1;
    }
    false
}

/// The intersection of the clusters of symbols `a` and `b`, in `a`'s order.
fn intersect_clusters(ledger: &SymbolLedger, a: u32, b: u32) -> (r: Vec<SignalId>)
    requires
        ledger.wf(),
    ensures
        r@ == cluster_intersection(cluster_of(ledger.symbols(), a), cluster_of(ledger.symbols(), b)),
{
    let empty_a: Vec<SignalId> = Vec::new();
    let empty_b: Vec<SignalId> = Vec::new();
    let ca: &Vec<SignalId> = match ledger.get(a) {
        Some(sa) => &sa.signal_cluster,
        None => &empty_a,
    };
    let cb: &Vec<SignalId> = match ledger.get(b) {
        Some(sb) => &sb.signal_cluster,
        None => &empty_b,
    };
    assert(ca@ == cluster_of(ledger.symbols(), a));
    assert(cb@ == cluster_of(ledger.symbols(), b));
    let ghost pred = |x: SignalId| cb@.contains(x);
    let mut r: Vec<SignalId> = Vec::new();
    let mut k: usize = 0;
    while k < ca.len()
        invariant
            k <= ca@.len(),
            pred == (|x: SignalId| cb@.contains(x)),
            r@ == ca@.take(k as int).filter(pred),
        decreases ca@.len() - k,
    {
        let x = ca[k];
        proof {
            assert(ca@.take(k + 1) =~= ca@.take(k as int).push(x));
            ca@.take(k as int).lemma_filter_push(x, pred);
        }
        if cluster_contains(cb, x) {
            r.push(x);
        }
        k = k + 1;
    }
    assert(ca@.take(ca@.len() as int) =~= ca@);
    r
}

/// Tracks symbol co-activations and coins composite symbols when two symbols
/// co-activate together at least `threshold` times.
///
/// Composites are tokens Φ_C_NNNN grounded in the intersection of their parents'
/// signal clusters. Recursion is natural: composites appear in activation frames
/// and can themselves become parents of higher-order composites.
pub struct CompositionEngine {
    /// Co-activation counts: (lower_idx, higher_idx) → count, keys unique
    co_activation_counts: Vec<(Pair, u64)>,
    /// Pairs that have already been composed — skipped in future observations
    composed_pairs: Vec<Pair>,
    /// Number of co-activations required to trigger composition
    pub threshold: u64,
}

impl CompositionEngine {
    /// Maximum number of composites the engine will coin in total.
    pub const MAX_COMPOSITES: usize = 200;

    /// Co-activation counts of pairs not yet composed.
    pub closed spec fn counts(&self) -> Map<Pair, u64> {
        entries_map(self.co_activation_counts@)
    }

    /// Pairs already composed.
    pub closed spec fn composed(&self) -> Set<Pair> {
        self.composed_pairs@.to_set()
    }

    /// The co-activation count at which a pair is composed.
    pub closed spec fn threshold_value(&self) -> u64 {
        self.threshold
    }

    pub closed spec fn wf(&self) -> bool {
        keys_unique(self.co_activation_counts@)
    }

    /// Pairs whose count reached the threshold and that are not yet composed.
    pub open spec fn ready(&self) -> Set<Pair> {
        Set::new(|p: Pair| self.counts().contains_key(p) && self.counts()[p] >= self.threshold_value() && !self.composed().contains(p))
    }

    /// Position of pair `p` in the count list, if it is counted.
    fn find_count(&self, p: Pair) -> (r: Option<usize>)
        requires
            self.wf(),
        ensures
            match r {
                Some(i) => i < self.co_activation_counts@.len() && self.co_activation_counts@[i as int].0 == p
                    && self.counts().contains_key(p) && self.counts()[p] == self.co_activation_counts@[i as int].1,
                None => !self.counts().contains_key(p),
            },
    {
        let mut i: usize = 0;
        while i < self.co_activation_counts.len()
            invariant
                self.wf(),
                i <= self.co_activation_counts@.len(),
                forall|t: int| 0 <= t < i ==> self.co_activation_counts@[t].0 != p,
            decreases self.co_activation_counts@.len() - i,
        {
            if self.co_activation_counts[i].0.0 == p.0 && self.co_activation_counts[i].0.1 == p.1 {
                proof {
                    lemma_entries_has(self.co_activation_counts@, i as int);
                }
                return Some(i);
            }
            i = i + 1;
        }
        proof {
            lemma_entries_absent(self.co_activation_counts@, p);
        }
        None
    }

    /// Whether pair `p` was already composed.
    fn is_composed(&self, p: Pair) -> (r: bool)
        ensures
            r == self.composed().contains(p),
    {
        let mut i: usize = 0;
        while i < self.composed_pairs.len()
            invariant
                i <= self.composed_pairs@.len(),
                forall|t: int| 0 <= t < i ==> self.composed_pairs@[t] != p,
            decreases self.composed_pairs@.len() - i,
        {
            if self.composed_pairs[i].0 == p.0 && self.composed_pairs[i].1 == p.1 {
                assert(self.composed_pairs@.contains(p));
                return true;
            }
            i = i + 1;
        }
        false
    }

    /// Counts one co-activation of `p` (nothing when `p` is already composed).
    fn bump_pair(&mut self, p: Pair)
        requires
            old(self).wf(),
            old(self).counts().contains_key(p) ==> old(self).counts()[p] < u64::MAX,
        ensures
            final(self).wf(),
            final(self).counts() == bump(old(self).counts(), old(self).composed(), p),
            final(self).composed() == old(self).composed(),
            final(self).threshold_value() == old(self).threshold_value(),
    {
        if self.is_composed(p) {
            return;
        }
        match self.find_count(p) {
            Some(i) => {
                let c = self.co_activation_counts[i].1;
                let ghost s0 = self.co_activation_counts@;
                self.co_activation_counts.set(i, (p, c + 1));
                proof {
                    let s1 = self.co_activation_counts@;
                    assert(keys_unique(s1)) by {
                        assert forall|a: int, b: int| 0 <= a < b < s1.len() implies s1[a].0 != s1[b].0 by {
                            assert(s0[a].0 != s0[b].0);
                        }
                    }
                    lemma_entries_dom(s0);
                    let m = entries_map(s0).insert(p, (c + 1) as u64);
                    assert forall|k: Pair| m.contains_key(k) <==> (exists|t: int| 0 <= t < s1.len() && s1[t].0 == k) by {
                        if m.contains_key(k) {
                            if k != p {
                                let t = choose|t: int| 0 <= t < s0.len() && s0[t].0 == k;
                                assert(s1[t].0 == k);
                            } else {
                                assert(s1[i as int].0 == k);
                            }
                        }
                        if exists|t: int| 0 <= t < s1.len() && s1[t].0 == k {
                            let t = choose|t: int| 0 <= t < s1.len() && s1[t].0 == k;
                            assert(s0[t].0 == k);
                        }
                    }
                    assert forall|t: int| 0 <= t < s1.len() implies m[s1[t].0] == s1[t].1 by {
                        if t != i {
                            assert(s1[t] == s0[t]);
                            assert(s0[t].0 != s0[i as int].0);
                        }
                    }
                    lemma_entries_ext(s1, m);
                }
            },
            None => {
                let ghost s0 = self.co_activation_counts@;
                self.co_activation_counts.push((p, 1));
                proof {
                    let s1 = self.co_activation_counts@;
                    assert(s1.drop_last() =~= s0);
                    assert forall|t: int| 0 <= t < s0.len() implies s0[t].0 != p by {
                        lemma_entries_has(s0, t);
                    }
                }
            },
        }
    }

    /// Record co-activations from the current frame: every pair of positions
    /// `i < j` of the active indices that are basic symbols in `ledger` is
    /// counted once (as the normalised pair), unless already composed.
    pub fn observe(&mut self, active: &[u32], ledger: &SymbolLedger)
        requires
            old(self).wf(),
            ledger.wf(),
            forall|p: Pair| #[trigger] old(self).counts().contains_key(p) ==>
                old(self).counts()[p] + pairs_of(active@.filter(|i: u32| is_basic_in(ledger.symbols(), i))).len() <= u64::MAX,
        ensures
            final(self).wf(),
            final(self).counts() == bump_all(
                old(self).counts(),
                old(self).composed(),
                pairs_of(active@.filter(|i: u32| is_basic_in(ledger.symbols(), i))),
            ),
            final(self).composed() == old(self).composed(),
            final(self).threshold_value() == old(self).threshold_value(),
    {
        let ghost basic = |i: u32| is_basic_in(ledger.symbols(), i);
        let mut indices: Vec<u32> = Vec::new();
        let mut k: usize = 0;
        while k < active.len()
            invariant
                k <= active@.len(),
                ledger.wf(),
                basic == (|i: u32| is_basic_in(ledger.symbols(), i)),
                indices@ == active@.take(k as int).filter(basic),
            decreases active@.len() - k,
        {
            let idx = active[k];
            proof {
                assert(active@.take(k + 1) =~= active@.take(k as int).push(idx));
                active@.take(k as int).lemma_filter_push(idx, basic);
            }
            match ledger.get(idx) {
                Some(sym) => {
                    if !sym.is_composite {
                        indices.push(idx);
                    }
                },
                None => {},
            }
            k = k + 1;
        }
        assert(active@.take(active@.len() as int) =~= active@);
        let ghost sq = indices@;
        let n = indices.len();
        let mut pairs: Vec<Pair> = Vec::new();
        let mut i: usize = 0;
        while i < n
            invariant
                n == sq.len(),
                sq == indices@,
                i <= n,
                pairs@ + rows_from(sq, i as int) == rows_from(sq, 0),
            decreases n - i,
        {
            let mut j: usize = i + 1;
            assert(row(sq, i as int).skip(0) =~= row(sq, i as int));
            while j < n
                invariant
                    n == sq.len(),
                    sq == indices@,
                    i < n,
                    i + 1 <= j <= n,
                    pairs@ + row(sq, i as int).skip(j - i - 1) + rows_from(sq, i + 1) == rows_from(sq, 0),
                decreases n - j,
            {
                let a = indices[i];
                let b = indices[j];
                let pr: Pair = if a <= b { (a, b) } else { (b, a) };
                let ghost before = pairs@;
                pairs.push(pr);
                proof {
                    let rr = row(sq, i as int);
                    assert(rr.skip(j - i - 1) =~= seq![pr] + rr.skip(j - i));
                    assert(pairs@ + rr.skip(j - i) + rows_from(sq, i + 1) =~= before + rr.skip(j - i - 1) + rows_from(sq, i + 1));
                }
                j = j + 1;
            }
            proof {
                assert(row(sq, i as int).skip(n - i - 1) =~= Seq::<Pair>::empty());
                assert(pairs@ + rows_from(sq, i + 1) =~= pairs@ + row(sq, i as int).skip(n - i - 1) + rows_from(sq, i + 1));
            }
            i = i + 1;
        }
        assert(pairs@ =~= pairs_of(sq));
        let ghost target = bump_all(old(self).counts(), old(self).composed(), pairs@);
        let ghost c0 = old(self).composed();
        assert(pairs@.skip(0) =~= pairs@);
        let mut t: usize = 0;
        while t < pairs.len()
            invariant
                t <= pairs@.len(),
                self.wf(),
                self.composed() == c0,
                self.threshold == old(self).threshold,
                bump_all(self.counts(), c0, pairs@.skip(t as int)) == target,
                forall|p: Pair| #[trigger] self.counts().contains_key(p) ==> self.counts()[p] + (pairs@.len() - t) <= u64::MAX,
            decreases pairs@.len() - t,
        {
            let pr = pairs[t];
            let ghost before = self.counts();
            proof {
                assert(pairs@.skip(t as int)[0] == pr);
                assert(pairs@.skip(t as int).drop_first() =~= pairs@.skip(t + 1));
            }
            self.bump_pair(pr);
            t = t + 1;
        }
        assert(pairs@.skip(pairs@.len() as int) =~= Seq::<Pair>::empty());
    }

    /// Remove all co-activation counts and composed pairs that reference a pruned index.
    pub fn purge_symbols(&mut self, pruned: &[u32])
        requires
            old(self).wf(),
        ensures
            final(self).wf(),
            final(self).counts() == Map::new(
                |p: Pair| old(self).counts().contains_key(p) && !pruned@.contains(p.0) && !pruned@.contains(p.1),
                |p: Pair| old(self).counts()[p],
            ),
            final(self).composed() == old(self).composed().filter(
                |p: Pair| !pruned@.contains(p.0) && !pruned@.contains(p.1),
            ),
            final(self).threshold_value() == old(self).threshold_value(),
    {
        let ghost keep = |p: Pair| !pruned@.contains(p.0) && !pruned@.contains(p.1);
        let ghost s0 = self.co_activation_counts@;
        let mut kept: Vec<(Pair, u64)> = Vec::new();
        let mut k: usize = 0;
        while k < self.co_activation_counts.len()
            invariant
                s0 == self.co_activation_counts@,
                keys_unique(s0),
                k <= s0.len(),
                keep == (|p: Pair| !pruned@.contains(p.0) && !pruned@.contains(p.1)),
                keys_unique(kept@),
                forall|t: int| 0 <= t < kept@.len() ==> entries_map(s0.take(k as int)).contains_key(#[trigger] kept@[t].0),
                entries_map(kept@) == Map::new(
                    |p: Pair| entries_map(s0.take(k as int)).contains_key(p) && keep(p),
                    |p: Pair| entries_map(s0.take(k as int))[p],
                ),
            decreases s0.len() - k,
        {
            let e = self.co_activation_counts[k];
            let in_a = slice_contains(pruned, e.0.0);
            let in_b = slice_contains(pruned, e.0.1);
            proof {
                assert(s0.take(k + 1).drop_last() =~= s0.take(k as int));
                assert forall|t: int| 0 <= t < k implies s0.take(k as int)[t].0 != e.0 by {
                    assert(s0[t].0 != s0[k as int].0);
                }
                lemma_entries_absent(s0.take(k as int), e.0);
            }
            if !in_a && !in_b {
                let ghost before = kept@;
                kept.push(e);
                proof {
                    assert(kept@.drop_last() =~= before);
                    assert(keys_unique(kept@)) by {
                        assert forall|a: int, b: int| 0 <= a < b < kept@.len() implies kept@[a].0 != kept@[b].0 by {
                            if b == kept@.len() - 1 {
                                assert(entries_map(s0.take(k as int)).contains_key(before[a].0));
                            } else {
                                assert(before[a].0 != before[b].0);
                            }
                        }
                    }
                    assert(entries_map(kept@) =~= Map::new(
                        |p: Pair| entries_map(s0.take(k + 1)).contains_key(p) && keep(p),
                        |p: Pair| entries_map(s0.take(k + 1))[p],
                    ));
                }
            } else {
                proof {
                    assert(entries_map(kept@) =~= Map::new(
                        |p: Pair| entries_map(s0.take(k + 1)).contains_key(p) && keep(p),
                        |p: Pair| entries_map(s0.take(k + 1))[p],
                    ));
                }
            }
            k = k + 1;
        }
        assert(s0.take(s0.len() as int) =~= s0);
        self.co_activation_counts = kept;

        let ghost c0 = self.composed_pairs@;
        let mut kept_pairs: Vec<Pair> = Vec::new();
        let mut m: usize = 0;
        while m < self.composed_pairs.len()
            invariant
                c0 == self.composed_pairs@,
                m <= c0.len(),
                keep == (|p: Pair| !pruned@.contains(p.0) && !pruned@.contains(p.1)),
                kept_pairs@ == c0.take(m as int).filter(keep),
            decreases c0.len() - m,
        {
            let pr = self.composed_pairs[m];
            let in_a = slice_contains(pruned, pr.0);
            let in_b = slice_contains(pruned, pr.1);
            proof {
                assert(c0.take(m + 1) =~= c0.take(m as int).push(pr));
                c0.take(m as int).lemma_filter_push(pr, keep);
            }
            if !in_a && !in_b {
                kept_pairs.push(pr);
            }
            m = m + 1;
        }
        assert(c0.take(c0.len() as int) =~= c0);
        self.composed_pairs = kept_pairs;
        proof {
            let f = c0.filter(keep);
            assert forall|p: Pair| f.to_set().contains(p) <==> c0.to_set().filter(keep).contains(p) by {
                if f.contains(p) {
                    c0.lemma_filter_contains_rev(keep, p);
                    let t = choose|t: int| 0 <= t < f.len() && f[t] == p;
                    c0.lemma_filter_pred(keep, t);
                }
                if c0.contains(p) && keep(p) {
                    let t = choose|t: int| 0 <= t < c0.len() && c0[t] == p;
                    c0.lemma_filter_contains(keep, t);
                }
            }
            assert(f.to_set() =~= c0.to_set().filter(keep));
        }
    }

    /// Rebuild the composed pairs from composites already stored in the ledger:
    /// every composite with exactly two parents marks its (normalised) parent
    /// pair as composed. Call this after loading a checkpoint so existing pairs
    /// are not coined again.
    pub fn seed_from_ledger(&mut self, ledger: &SymbolLedger)
        requires
            old(self).wf(),
            ledger.wf(),
        ensures
            final(self).wf(),
            final(self).counts() == old(self).counts(),
            final(self).threshold_value() == old(self).threshold_value(),
            final(self).composed() == old(self).composed().union(seed_pairs(ledger.symbols()).to_set()),
    {
        let syms = ledger.all();
        let ghost s0 = syms@;
        let ghost start = self.composed();
        let mut k: usize = 0;
        while k < syms.len()
            invariant
                s0 == syms@,
                k <= s0.len(),
                self.wf(),
                self.counts() == old(self).counts(),
                self.threshold == old(self).threshold,
                start == old(self).composed(),
                self.composed() == start.union(seed_pairs(s0.take(k as int)).to_set()),
            decreases s0.len() - k,
        {
            let sym = &syms[k];
            proof {
                assert(s0.take(k + 1) =~= s0.take(k as int).push(s0[k as int]));
                s0.take(k as int).lemma_filter_push(s0[k as int], two_parent_composite());
                assert(s0.take(k as int).filter(two_parent_composite()).push(s0[k as int]).map_values(two_parent_pair())
                    =~= s0.take(k as int).filter(two_parent_composite()).map_values(two_parent_pair()).push(two_parent_pair()(s0[k as int])));
            }
            if sym.is_composite && sym.parents.len() == 2 {
                let x = sym.parents[0];
                let y = sym.parents[1];
                let pr: Pair = if x <= y { (x, y) } else { (y, x) };
                if !self.is_composed(pr) {
                    let ghost before = self.composed_pairs@;
                    self.composed_pairs.push(pr);
                    proof {
                        before.lemma_push_to_set_commute(pr);
                    }
                }
                proof {
                    let sp = seed_pairs(s0.take(k as int));
                    sp.lemma_push_to_set_commute(pr);
                    assert(self.composed() =~= start.union(seed_pairs(s0.take(k + 1)).to_set()));
                }
            } else {
                assert(seed_pairs(s0.take(k + 1)) == seed_pairs(s0.take(k as int)));
            }
            k = k + 1;
        }
        assert(s0.take(s0.len() as int) =~= s0);
    }

    /// Coin composites for pairs that have crossed the threshold, never
    /// letting the ledger hold more than `MAX_COMPOSITES` composites in total:
    /// every ready pair is coined when there is room for all of them,
    /// otherwise as many as there is room for. Returns the indices of newly
    /// coined composites. Nothing is coined when the ledger already holds
    /// `MAX_COMPOSITES` composites or more.
    pub fn maybe_compose(&mut self, ledger: &mut SymbolLedger, tick: u64) -> (coined: Vec<u32>)
        requires
            old(self).wf(),
            old(ledger).wf(),
            old(ledger).symbols().filter(composite_pred()).len() < 200 ==>
                old(ledger).next() + old(self).ready().len() <= u32::MAX,
        ensures
            final(self).wf(),
            final(ledger).wf(),
            final(ledger).patterns() == old(ledger).patterns(),
            final(self).threshold_value() == old(self).threshold_value(),
            final(ledger).symbols().filter(composite_pred()).len()
                == old(ledger).symbols().filter(composite_pred()).len() + coined@.len(),
            old(ledger).symbols().filter(composite_pred()).len() <= 200 ==>
                final(ledger).symbols().filter(composite_pred()).len() <= 200,
            old(ledger).symbols().filter(composite_pred()).len() >= 200 ==> {
                &&& coined@.len() == 0
                &&& final(ledger).symbols() == old(ledger).symbols()
                &&& final(ledger).next() == old(ledger).next()
                &&& final(self).counts() == old(self).counts()
                &&& final(self).composed() == old(self).composed()
            },
            old(ledger).symbols().filter(composite_pred()).len() < 200 ==> exists|ps: Seq<Pair>| {
                &&& ps.no_duplicates()
                &&& #[trigger] ps.to_set().subset_of(old(self).ready())
                &&& ps.len() == (if old(ledger).symbols().filter(composite_pred()).len() + old(self).ready().len() <= 200 {
                    old(self).ready().len() as int
                } else {
                    200 - old(ledger).symbols().filter(composite_pred()).len()
                })
                &&& (old(ledger).symbols().filter(composite_pred()).len() + old(self).ready().len() <= 200 ==>
                    ps.to_set() == old(self).ready())
                &&& coined@ == Seq::new(ps.len(), |i: int| (old(ledger).next() + i) as u32)
                &&& final(ledger).next() == old(ledger).next() + ps.len()
                &&& composed_in_order(old(ledger).symbols(), old(ledger).next(), ps, final(ledger).symbols(), tick)
                &&& final(self).composed() == old(self).composed().union(ps.to_set())
                &&& final(self).counts() == old(self).counts().remove_keys(ps.to_set())
            },
    {
        let comps = ledger.composites();
        proof {
            assert(comps@.map_values(|s: &Symbol| *s).len() == comps@.len());
        }
        if comps.len() >= Self::MAX_COMPOSITES {
            return Vec::new();
        }
        let room: usize = Self::MAX_COMPOSITES - comps.len();
        let ghost sc = self.co_activation_counts@;
        let ghost c0 = self.composed();
        let ghost k0 = self.counts();
        let ghost r0 = self.ready();
        let ghost s0 = ledger.symbols();
        let ghost n0 = ledger.next();
        let ghost thr = self.threshold;
        let ghost cond = |e: (Pair, u64)| e.1 >= thr && !c0.contains(e.0);
        let mut ready: Vec<Pair> = Vec::new();
        let mut k: usize = 0;
        while k < self.co_activation_counts.len()
            invariant
                sc == self.co_activation_counts@,
                self.wf(),
                self.composed() == c0,
                thr == self.threshold,
                cond == (|e: (Pair, u64)| e.1 >= thr && !c0.contains(e.0)),
                k <= sc.len(),
                ready@ == sc.take(k as int).filter(cond).map_values(|e: (Pair, u64)| e.0),
                ready@.no_duplicates(),
            decreases sc.len() - k,
        {
            let e = self.co_activation_counts[k];
            let ghost f = sc.take(k as int).filter(cond);
            proof {
                assert(sc.take(k + 1) =~= sc.take(k as int).push(e));
                sc.take(k as int).lemma_filter_push(e, cond);
            }
            let composed = self.is_composed(e.0);
            if e.1 >= self.threshold && !composed {
                proof {
                    assert forall|r: int| 0 <= r < ready@.len() implies ready@[r] != e.0 by {
                        assert(f.contains(f[r]));
                        sc.take(k as int).lemma_filter_contains_rev(cond, f[r]);
                        let i = choose|i: int| 0 <= i < k && sc.take(k as int)[i] == f[r];
                        assert(sc[i].0 != sc[k as int].0);
                    }
                }
                ready.push(e.0);
                proof {
                    assert(ready@ =~= sc.take(k + 1).filter(cond).map_values(|e: (Pair, u64)| e.0));
                }
            }
            k = k + 1;
        }
        proof {
            assert(sc.take(sc.len() as int) =~= sc);
            lemma_entries_dom(sc);
            let f = sc.filter(cond);
            assert forall|p: Pair| ready@.contains(p) <==> r0.contains(p) by {
                if ready@.contains(p) {
                    let r = choose|r: int| 0 <= r < ready@.len() && ready@[r] == p;
                    assert(f.contains(f[r]));
                    sc.lemma_filter_contains_rev(cond, f[r]);
                    sc.lemma_filter_pred(cond, r);
                    let i = choose|i: int| 0 <= i < sc.len() && sc[i] == f[r];
                    assert(k0[sc[i].0] == sc[i].1);
                }
                if r0.contains(p) {
                    let i = choose|i: int| 0 <= i < sc.len() && sc[i].0 == p;
                    assert(k0[sc[i].0] == sc[i].1);
                    sc.lemma_filter_contains(cond, i);
                    let r = choose|r: int| 0 <= r < f.len() && f[r] == sc[i];
                    assert(ready@[r] == p);
                }
            }
            assert(ready@.to_set() =~= r0);
            ready@.unique_seq_to_set();
        }
        let take: usize = if ready.len() <= room { ready.len() } else { room };
        let ghost full = ready@;
        let ghost ps = full.take(take as int);
        proof {
            assert forall|i: int, j: int| 0 <= i < ps.len() && 0 <= j < ps.len() && i != j implies ps[i] != ps[j] by {
                assert(ps[i] == full[i] && ps[j] == full[j]);
            }
        }
        assert(s0.take(s0.len() as int) =~= s0);
        assert(ps.take(0) =~= Seq::<Pair>::empty());
        assert(ps.take(0).to_set() =~= Set::<Pair>::empty());
        assert(c0.union(Set::<Pair>::empty()) =~= c0);
        assert(k0.remove_keys(Set::<Pair>::empty()) =~= k0);
        let mut coined: Vec<u32> = Vec::new();
        let mut r: usize = 0;
        while r < take
            invariant
                full == ready@,
                full.to_set() == r0,
                take <= full.len(),
                ps == full.take(take as int),
                ps.no_duplicates(),
                n0 + full.len() <= u32::MAX,
                r <= ps.len(),
                forall|p: Pair| #[trigger] r0.contains(p) ==> k0.contains_key(p),
                self.wf(),
                thr == self.threshold,
                self.composed() == c0.union(ps.take(r as int).to_set()),
                self.counts() == k0.remove_keys(ps.take(r as int).to_set()),
                ledger.wf(),
                ledger.patterns() == old(ledger).patterns(),
                ledger.next() == n0 + r,
                s0.len() == old(ledger).symbols().len(),
                composed_in_order(s0, n0, ps.take(r as int), ledger.symbols(), tick),
                coined@ == Seq::new(r as nat, |i: int| (n0 + i) as u32),
            decreases ps.len() - r,
        {
            let pr = ready[r];
            let ghost s_before = ledger.symbols();
            let inter = intersect_clusters(ledger, pr.0, pr.1);
            let mut parents: Vec<u32> = Vec::new();
            parents.push(pr.0);
            parents.push(pr.1);
            assert(parents@ =~= seq![pr.0, pr.1]);
            let idx = ledger.coin_composite(parents, inter, tick);
            let ghost before_pairs = self.composed_pairs@;
            self.composed_pairs.push(pr);
            proof {
                before_pairs.lemma_push_to_set_commute(pr);
                assert(ps.take(r + 1) =~= ps.take(r as int).push(pr));
                ps.take(r as int).lemma_push_to_set_commute(pr);
                assert(!ps.take(r as int).contains(pr)) by {
                    if ps.take(r as int).contains(pr) {
                        let t = choose|t: int| 0 <= t < r && ps.take(r as int)[t] == pr;
                        assert(ps[t] == ps[r as int]);
                    }
                }
                assert(r0.contains(pr)) by {
                    assert(full[r as int] == pr);
                    assert(full.contains(pr));
                }
            }
            match self.find_count(pr) {
                Some(i) => {
                    let ghost sb = self.co_activation_counts@;
                    proof {
                        lemma_entries_remove(sb, i as int);
                    }
                    self.co_activation_counts.remove(i);
                },
                None => {
                    assert(false);
                },
            }
            coined.push(idx);
            proof {
                assert(self.composed() =~= c0.union(ps.take(r + 1).to_set()));
                assert(self.counts() =~= k0.remove_keys(ps.take(r + 1).to_set()));
                assert(coined@ =~= Seq::new((r + 1) as nat, |i: int| (n0 + i) as u32));
                let s1 = ledger.symbols();
                let q = ps.take(r + 1);
                assert(s1.drop_last() == s_before);
                assert(s1.take(s0.len() as int) =~= s0) by {
                    assert(s_before.take(s0.len() as int) == s0);
                }
                assert forall|i: int| #![trigger s1[s0.len() + i]] 0 <= i < q.len() implies s1[s0.len() + i].is_fresh_composite(
                    (n0 + i) as u32,
                    seq![q[i].0, q[i].1],
                    cluster_intersection(
                        cluster_of(s1.take(s0.len() + i), q[i].0),
                        cluster_of(s1.take(s0.len() + i), q[i].1),
                    ),
                    tick,
                ) by {
                    if i < r {
                        assert(s1.take(s0.len() + i) =~= s_before.take(s0.len() + i));
                        assert(s1[s0.len() + i] == s_before[s0.len() + i]);
                        assert(ps.take(r as int)[i] == q[i]);
                    } else {
                        assert(s1.take(s0.len() + i) =~= s_before);
                    }
                }
            }
            r = r + 1;
        }
        proof {
            assert(ps.take(ps.len() as int) =~= ps);
            lemma_composed_count(s0, n0, ps, ledger.symbols(), tick);
            assert(comps@.map_values(|s: &Symbol| *s).len() == s0.filter(composite_pred()).len());
            assert forall|p: Pair| ps.to_set().contains(p) implies r0.contains(p) by {
                let i = choose|i: int| 0 <= i < ps.len() && ps[i] == p;
                assert(full[i] == p);
                assert(full.contains(p));
            }
            if take == full.len() {
                assert(ps =~= full);
            }
            assert(ps.to_set().subset_of(r0));
        }
        coined
    }

    /// How many pairs are ready to be composed: counted at least the
    /// threshold number of times and not composed yet.
    pub fn ready_count(&self) -> (n: usize)
        requires
            self.wf(),
        ensures
            n == self.ready().len(),
    {
        let ghost sc = self.co_activation_counts@;
        let ghost c0 = self.composed();
        let ghost k0 = self.counts();
        let ghost r0 = self.ready();
        let ghost thr = self.threshold;
        let ghost cond = |e: (Pair, u64)| e.1 >= thr && !c0.contains(e.0);
        let mut ready: Vec<Pair> = Vec::new();
        let mut k: usize = 0;
        while k < self.co_activation_counts.len()
            invariant
                sc == self.co_activation_counts@,
                self.wf(),
                self.composed() == c0,
                thr == self.threshold,
                cond == (|e: (Pair, u64)| e.1 >= thr && !c0.contains(e.0)),
                k <= sc.len(),
                ready@ == sc.take(k as int).filter(cond).map_values(|e: (Pair, u64)| e.0),
                ready@.no_duplicates(),
            decreases sc.len() - k,
        {
            let e = self.co_activation_counts[k];
            let ghost f = sc.take(k as int).filter(cond);
            proof {
                assert(sc.take(k + 1) =~= sc.take(k as int).push(e));
                sc.take(k as int).lemma_filter_push(e, cond);
            }
            let composed = self.is_composed(e.0);
            if e.1 >= self.threshold && !composed {
                proof {
                    assert forall|r: int| 0 <= r < ready@.len() implies ready@[r] != e.0 by {
                        assert(f.contains(f[r]));
                        sc.take(k as int).lemma_filter_contains_rev(cond, f[r]);
                        let i = choose|i: int| 0 <= i < k && sc.take(k as int)[i] == f[r];
                        assert(sc[i].0 != sc[k as int].0);
                    }
                }
                ready.push(e.0);
                proof {
                    assert(ready@ =~= sc.take(k + 1).filter(cond).map_values(|e: (Pair, u64)| e.0));
                }
            }
            k = k + 1;
        }
        proof {
            assert(sc.take(sc.len() as int) =~= sc);
            lemma_entries_dom(sc);
            let f = sc.filter(cond);
            assert forall|p: Pair| ready@.contains(p) <==> r0.contains(p) by {
                if ready@.contains(p) {
                    let r = choose|r: int| 0 <= r < ready@.len() && ready@[r] == p;
                    assert(f.contains(f[r]));
                    sc.lemma_filter_contains_rev(cond, f[r]);
                    sc.lemma_filter_pred(cond, r);
                    let i = choose|i: int| 0 <= i < sc.len() && sc[i] == f[r];
                    assert(k0[sc[i].0] == sc[i].1);
                }
                if r0.contains(p) {
                    let i = choose|i: int| 0 <= i < sc.len() && sc[i].0 == p;
                    assert(k0[sc[i].0] == sc[i].1);
                    sc.lemma_filter_contains(cond, i);
                    let r = choose|r: int| 0 <= r < f.len() && f[r] == sc[i];
                    assert(ready@[r] == p);
                }
            }
            assert(ready@.to_set() =~= r0);
            ready@.unique_seq_to_set();
        }
        ready.len()
    }

    /// The highest co-activation count held (0 when none is).
    pub fn max_count(&self) -> (r: u64)
        requires
            self.wf(),
        ensures
            forall|p: Pair| #[trigger] self.counts().contains_key(p) ==> self.counts()[p] <= r,
    {
        let mut m: u64 = 0;
        let mut k: usize = 0;
        while k < self.co_activation_counts.len()
            invariant
                self.wf(),
                k <= self.co_activation_counts@.len(),
                forall|t: int| 0 <= t < k ==> self.co_activation_counts@[t].1 <= m,
            decreases self.co_activation_counts@.len() - k,
        {
            if self.co_activation_counts[k].1 > m {
                m = self.co_activation_counts[k].1;
            }
            k = k + 1;
        }
        proof {
            assert forall|p: Pair| #[trigger] self.counts().contains_key(p) implies self.counts()[p] <= m by {
                let i = lemma_entries_pos(self.co_activation_counts@, p);
                lemma_entries_has(self.co_activation_counts@, i);
            }
        }
        m
    }

    pub fn new(threshold: u64) -> (e: CompositionEngine)
        ensures
            e.wf(),
            e.counts().is_empty(),
            e.composed().is_empty(),
            e.ready().is_empty(),
            e.threshold_value() == threshold,
    {
        let e = CompositionEngine { co_activation_counts: Vec::new(), composed_pairs: Vec::new(), threshold };
        assert(e.composed_pairs@.to_set() =~= Set::empty());
        assert(entries_map(e.co_activation_counts@) =~= Map::empty());
        assert(e.ready() =~= Set::<Pair>::empty());
        e
    }
}

/// How many times `p` occurs in `ps`.
pub open spec fn occurrences(ps: Seq<Pair>, p: Pair) -> nat
    decreases ps.len(),
{
    if ps.len() == 0 {
        0
    } else {
        (if ps[0] == p { 1nat } else { 0nat }) + occurrences(ps.drop_first(), p)
    }
}

/// A composed pair is never counted again: observing co-activations leaves
/// its count (or its absence) as it was.
pub proof fn law_composed_not_counted(m: Map<Pair, u64>, composed: Set<Pair>, ps: Seq<Pair>, p: Pair)
    requires
        composed.contains(p),
    ensures
        bump_all(m, composed, ps).contains_key(p) == m.contains_key(p),
        m.contains_key(p) ==> bump_all(m, composed, ps)[p] == m[p],
    decreases ps.len(),
{
    if ps.len() > 0 {
        law_composed_not_counted(bump(m, composed, ps[0]), composed, ps.drop_first(), p);
    }
}

/// Observing counts every co-activation of a pair not yet composed exactly
/// once: its count grows by its number of occurrences.
pub proof fn law_observe_counts_occurrences(m: Map<Pair, u64>, composed: Set<Pair>, ps: Seq<Pair>, p: Pair)
    requires
        !composed.contains(p),
        (if m.contains_key(p) { m[p] as int } else { 0 }) + occurrences(ps, p) <= u64::MAX,
    ensures
        occurrences(ps, p) > 0 || m.contains_key(p) ==> bump_all(m, composed, ps).contains_key(p),
        bump_all(m, composed, ps).contains_key(p) ==> bump_all(m, composed, ps)[p]
            == (if m.contains_key(p) { m[p] as int } else { 0 }) + occurrences(ps, p),
    decreases ps.len(),
{
    if ps.len() > 0 {
        let m1 = bump(m, composed, ps[0]);
        law_observe_counts_occurrences(m1, composed, ps.drop_first(), p);
    }
}

/// After purging, no count and no composed pair mentions a purged symbol.
pub proof fn law_purge_forgets(before: CompositionEngine, after: CompositionEngine, pruned: Seq<u32>)
    requires
        after.counts() == Map::new(
            |p: Pair| before.counts().contains_key(p) && !pruned.contains(p.0) && !pruned.contains(p.1),
            |p: Pair| before.counts()[p],
        ),
        after.composed() == before.composed().filter(|p: Pair| !pruned.contains(p.0) && !pruned.contains(p.1)),
    ensures
        forall|p: Pair| after.counts().contains_key(p) ==> !pruned.contains(p.0) && !pruned.contains(p.1),
        forall|p: Pair| after.composed().contains(p) ==> !pruned.contains(p.0) && !pruned.contains(p.1),
        forall|p: Pair| before.counts().contains_key(p) && !pruned.contains(p.0) && !pruned.contains(p.1)
            ==> after.counts().contains_key(p) && after.counts()[p] == before.counts()[p],
{
}

/// No pair is composed twice: the pairs ready to be composed are never
/// among those already composed.
pub proof fn law_ready_not_composed(e: CompositionEngine)
    ensures
        forall|p: Pair| e.ready().contains(p) ==> !e.composed().contains(p),
{
}

/// A pair that a pass of co-activation counting adds is one of the pairs
/// counted.
proof fn lemma_bump_all_new_key(m: Map<Pair, u64>, composed: Set<Pair>, ps: Seq<Pair>, p: Pair)
    requires
        !m.contains_key(p),
        bump_all(m, composed, ps).contains_key(p),
    ensures
        ps.contains(p),
    decreases ps.len(),
{
    if ps.len() > 0 {
        let m1 = bump(m, composed, ps[0]);
        if ps[0] != p {
            assert(!m1.contains_key(p));
            lemma_bump_all_new_key(m1, composed, ps.drop_first(), p);
            let k = choose|k: int| 0 <= k < ps.drop_first().len() && ps.drop_first()[k] == p;
            assert(ps[k + 1] == p);
        }
    }
}

/// Every pair formed from row `i` on is the normalised pair of two
/// positions `a < b` of `s`.
proof fn lemma_rows_from_pairs(s: Seq<u32>, i: int, p: Pair)
    requires
        0 <= i,
        rows_from(s, i).contains(p),
    ensures
        exists|a: int, b: int| i <= a < b < s.len() && p == norm(s[a], s[b]),
    decreases s.len() - i,
{
    if i < s.len() {
        let r = row(s, i);
        let rest = rows_from(s, i + 1);
        assert(rows_from(s, i) == r + rest);
        let k = choose|k: int| 0 <= k < (r + rest).len() && (r + rest)[k] == p;
        if k < r.len() {
            assert(p == norm(s[i], s[i + 1 + k]));
        } else {
            assert(rest[k - r.len()] == p);
            lemma_rows_from_pairs(s, i + 1, p);
        }
    }
}

/// Only pairs of basic symbols are ever counted: a pair that observing adds
/// to the counts joins two basic symbols of the ledger.
pub proof fn law_observe_counts_basic_pairs(
    m: Map<Pair, u64>,
    composed: Set<Pair>,
    active: Seq<u32>,
    symbols: Seq<Symbol>,
    p: Pair,
)
    requires
        !m.contains_key(p),
        bump_all(m, composed, pairs_of(active.filter(|i: u32| is_basic_in(symbols, i)))).contains_key(p),
    ensures
        is_basic_in(symbols, p.0),
        is_basic_in(symbols, p.1),
{
    let basic = active.filter(|i: u32| is_basic_in(symbols, i));
    lemma_bump_all_new_key(m, composed, pairs_of(basic), p);
    lemma_rows_from_pairs(basic, 0, p);
    let (a, b) = choose|a: int, b: int| 0 <= a < b < basic.len() && p == norm(basic[a], basic[b]);
    active.filter_lemma(|i: u32| is_basic_in(symbols, i));
    assert(is_basic_in(symbols, basic[a]));
    assert(is_basic_in(symbols, basic[b]));
}

/// Counting two passes of co-activations one after the other is counting
/// them all in one pass.
pub proof fn lemma_bump_all_concat(m: Map<Pair, u64>, composed: Set<Pair>, a: Seq<Pair>, b: Seq<Pair>)
    ensures
        bump_all(bump_all(m, composed, a), composed, b) == bump_all(m, composed, a + b),
    decreases a.len(),
{
    if a.len() == 0 {
        assert(a + b =~= b);
    } else {
        lemma_bump_all_concat(bump(m, composed, a[0]), composed, a.drop_first(), b);
        assert((a + b).drop_first() =~= a.drop_first() + b);
        assert((a + b)[0] == a[0]);
    }
}

/// Purging the same symbols twice leaves the engine as the first purge did.
pub proof fn law_purge_idempotent(before: CompositionEngine, once: CompositionEngine, twice: CompositionEngine, pruned: Seq<u32>)
    requires
        once.counts() == Map::new(
            |p: Pair| before.counts().contains_key(p) && !pruned.contains(p.0) && !pruned.contains(p.1),
            |p: Pair| before.counts()[p],
        ),
        once.composed() == before.composed().filter(|p: Pair| !pruned.contains(p.0) && !pruned.contains(p.1)),
        twice.counts() == Map::new(
            |p: Pair| once.counts().contains_key(p) && !pruned.contains(p.0) && !pruned.contains(p.1),
            |p: Pair| once.counts()[p],
        ),
        twice.composed() == once.composed().filter(|p: Pair| !pruned.contains(p.0) && !pruned.contains(p.1)),
    ensures
        twice.counts() == once.counts(),
        twice.composed() == once.composed(),
{
    assert(twice.counts() =~= once.counts());
    assert(twice.composed() =~= once.composed());
}

/// A pair that was composed can be composed again after one of its symbols
/// is purged: the purge leaves it neither composed nor counted, and once it
/// has co-activated the threshold number of times (and at least once) it is
/// ready to be composed again.
pub proof fn law_recompose_after_purge(
    before: CompositionEngine,
    purged: CompositionEngine,
    later: CompositionEngine,
    pruned: Seq<u32>,
    obs: Seq<Pair>,
    p: Pair,
)
    requires
        purged.counts() == Map::new(
            |q: Pair| before.counts().contains_key(q) && !pruned.contains(q.0) && !pruned.contains(q.1),
            |q: Pair| before.counts()[q],
        ),
        purged.composed() == before.composed().filter(|q: Pair| !pruned.contains(q.0) && !pruned.contains(q.1)),
        pruned.contains(p.0) || pruned.contains(p.1),
        later.composed() == purged.composed(),
        later.counts() == bump_all(purged.counts(), purged.composed(), obs),
        later.threshold_value() == purged.threshold_value(),
        occurrences(obs, p) > 0,
        occurrences(obs, p) >= purged.threshold_value(),
        occurrences(obs, p) <= u64::MAX,
    ensures
        !purged.composed().contains(p),
        !purged.counts().contains_key(p),
        later.ready().contains(p),
        later.counts()[p] == occurrences(obs, p),
{
    law_observe_counts_occurrences(purged.counts(), purged.composed(), obs, p);
}

} // verus!
