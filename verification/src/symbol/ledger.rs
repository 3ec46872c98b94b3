//! The symbol ledger: internally generated tokens grounded in pattern records.
//!
//! A basic symbol is coined once per pattern and never removed; composite
//! symbols are coined from pairs of parents and may be pruned when stale.
//! The real-valued activation state of a symbol is kept by the caller, keyed
//! by the symbol's index; the ledger holds the structural part.
use vstd::prelude::*;
use std::collections::HashMap;
use crate::signal::types::SignalId;
use crate::text::{padded_decimal, push_padded_decimal, string_from_chars};

verus! {

broadcast use vstd::std_specs::hash::group_hash_axioms;

/// Token of a basic symbol: `Φ_` and the index padded to four digits.
pub open spec fn basic_token(index: u32) -> Seq<char> {
    seq!['\u{3a6}', '_'] + padded_decimal(index as nat, 4)
}

/// Token of a composite symbol: `Φ_C_` and the index padded to four digits.
pub open spec fn composite_token(index: u32) -> Seq<char> {
    seq!['\u{3a6}', '_', 'C', '_'] + padded_decimal(index as nat, 4)
}

/// An internally-generated token representing a recurring internal state.
/// The token itself carries no meaning — meaning is in the grounding.
#[derive(Debug, Clone)]
pub struct Symbol {
    /// Token: Φ_NNNN (basic) or Φ_C_NNNN (composite)
    pub token: String,
    /// Numeric index
    pub index: u32,
    /// The pattern record this symbol is grounded in (0 for composites)
    pub pattern_id: u64,
    /// Total times this symbol has been activated
    pub activation_count: u64,
    /// Associated directives (from directives.toml self-modification)
    pub directive_notes: Vec<String>,
    /// True if this symbol is a composition of two or more parent symbols
    pub is_composite: bool,
    /// Parent symbol indices (empty for basic symbols)
    pub parents: Vec<u32>,
    /// Signal cluster: signals this symbol is grounded in.
    pub signal_cluster: Vec<SignalId>,
    /// Tick at which this symbol was coined
    pub coined_at_tick: u64,
    /// Tick of most recent activation (0 if never activated)
    pub last_activated_tick: u64,
}

impl Symbol {
    /// `self` is a freshly coined basic symbol with these attributes.
    pub open spec fn is_fresh_basic(self, index: u32, pattern_id: u64, cluster: Seq<SignalId>, tick: u64) -> bool {
        &&& self.token@ == basic_token(index)
        &&& self.index == index
        &&& self.pattern_id == pattern_id
        &&& self.activation_count == 0
        &&& self.directive_notes@.len() == 0
        &&& !self.is_composite
        &&& self.parents@.len() == 0
        &&& self.signal_cluster@ == cluster
        &&& self.coined_at_tick == tick
        &&& self.last_activated_tick == 0
    }

    /// `self` is a freshly coined composite symbol with these attributes.
    pub open spec fn is_fresh_composite(self, index: u32, parents: Seq<u32>, cluster: Seq<SignalId>, tick: u64) -> bool {
        &&& self.token@ == composite_token(index)
        &&& self.index == index
        &&& self.pattern_id == 0
        &&& self.activation_count == 0
        &&& self.directive_notes@.len() == 0
        &&& self.is_composite
        &&& self.parents@ == parents
        &&& self.signal_cluster@ == cluster
        &&& self.coined_at_tick == tick
        &&& self.last_activated_tick == 0
    }

    /// A basic symbol for `pattern_id`, coined at `tick`, with an empty cluster.
    pub fn new(index: u32, pattern_id: u64, tick: u64) -> (s: Symbol)
        ensures
            s.is_fresh_basic(index, pattern_id, Seq::empty(), tick),
    {
        let mut v: Vec<char> = Vec::new();
        v.push('\u{3a6}');
        v.push('_');
        push_padded_decimal(index as u64, 4, &mut v);
        assert(v@ =~= basic_token(index));
        Symbol {
            token: string_from_chars(&v),
            index,
            pattern_id,
            activation_count: 0,
            directive_notes: Vec::new(),
            is_composite: false,
            parents: Vec::new(),
            signal_cluster: Vec::new(),
            coined_at_tick: tick,
            last_activated_tick: 0,
        }
    }

    /// A composite symbol over `parents`, grounded in `signal_cluster`.
    pub fn new_composite(index: u32, parents: Vec<u32>, signal_cluster: Vec<SignalId>, tick: u64) -> (s: Symbol)
        ensures
            s.is_fresh_composite(index, parents@, signal_cluster@, tick),
    {
        let mut v: Vec<char> = Vec::new();
        v.push('\u{3a6}');
        v.push('_');
        v.push('C');
        v.push('_');
        push_padded_decimal(index as u64, 4, &mut v);
        assert(v@ =~= composite_token(index));
        Symbol {
            token: string_from_chars(&v),
            index,
            pattern_id: 0,
            activation_count: 0,
            directive_notes: Vec::new(),
            is_composite: true,
            parents,
            signal_cluster,
            coined_at_tick: tick,
            last_activated_tick: 0,
        }
    }

    /// Records one activation at `tick`: the count grows by one and the
    /// last-activation tick becomes `tick`. (The activation strength and the
    /// imbalance context are real-valued and kept by the caller.)
    pub fn activate(&mut self, tick: u64)
        requires
            old(self).activation_count < u64::MAX,
        ensures
            final(self).activation_count == old(self).activation_count + 1,
            final(self).last_activated_tick == tick,
            final(self).token == old(self).token,
            final(self).index == old(self).index,
            final(self).pattern_id == old(self).pattern_id,
            final(self).directive_notes == old(self).directive_notes,
            final(self).is_composite == old(self).is_composite,
            final(self).parents == old(self).parents,
            final(self).signal_cluster == old(self).signal_cluster,
            final(self).coined_at_tick == old(self).coined_at_tick,
    {
        self.activation_count = self.activation_count + 1;
        self.last_activated_tick = tick;
    }
}

/// The symbol with index `idx` in `s`, searching from the most recent end.
pub open spec fn lookup_in(s: Seq<Symbol>, idx: u32) -> Option<Symbol>
    decreases s.len(),
{
    if s.len() == 0 {
        None
    } else if s.last().index == idx {
        Some(s.last())
    } else {
        lookup_in(s.drop_last(), idx)
    }
}

/// Symbol indices strictly increase along `s`.
pub open spec fn strictly_ordered(s: Seq<Symbol>) -> bool {
    forall|i: int, j: int| 0 <= i < j < s.len() ==> s[i].index < s[j].index
}

pub proof fn lemma_lookup_at(s: Seq<Symbol>, i: int)
    requires
        strictly_ordered(s),
        0 <= i < s.len(),
    ensures
        lookup_in(s, s[i].index) == Some(s[i]),
    decreases s.len(),
{
    if i != s.len() - 1 {
        assert(s[i].index < s.last().index);
        lemma_lookup_at(s.drop_last(), i);
    }
}

pub proof fn lemma_lookup_absent(s: Seq<Symbol>, idx: u32)
    requires
        forall|i: int| 0 <= i < s.len() ==> s[i].index != idx,
    ensures
        lookup_in(s, idx) is None,
    decreases s.len(),
{
    if s.len() > 0 {
        lemma_lookup_absent(s.drop_last(), idx);
    }
}

pub proof fn lemma_lookup_pos(s: Seq<Symbol>, idx: u32) -> (i: int)
    requires
        lookup_in(s, idx) is Some,
    ensures
        0 <= i < s.len(),
        s[i] == lookup_in(s, idx).unwrap(),
        s[i].index == idx,
    decreases s.len(),
{
    if s.last().index == idx {
        s.len() - 1
    } else {
        lemma_lookup_pos(s.drop_last(), idx)
    }
}

/// Lookup after a filter keeps exactly the entries that pass the filter.
pub proof fn lemma_lookup_filter(s: Seq<Symbol>, p: spec_fn(Symbol) -> bool, idx: u32)
    requires
        strictly_ordered(s),
    ensures
        lookup_in(s.filter(p), idx) == (match lookup_in(s, idx) {
            Some(y) => if p(y) { Some(y) } else { None },
            None => None,
        }),
    decreases s.len(),
{
    if s.len() == 0 {
        reveal_with_fuel(Seq::filter, 1);
        assert(s.filter(p) =~= s);
    } else {
        let r = s.drop_last();
        assert(s =~= r.push(s.last()));
        r.lemma_filter_push(s.last(), p);
        assert(strictly_ordered(r));
        lemma_lookup_filter(r, p, idx);
        assert(r.filter(p).push(s.last()).drop_last() =~= r.filter(p));
        assert(r.filter(p).push(s.last()).last() == s.last());
        if s.last().index == idx {
            assert forall|k: int| 0 <= k < r.len() implies r[k].index != idx by {
                assert(s[k].index < s[s.len() - 1].index);
            }
            lemma_lookup_absent(r, idx);
        }
    }
}

/// Whether `notes` already holds a note with the text `note`.
pub open spec fn has_note(notes: Seq<String>, note: Seq<char>) -> bool {
    exists|k: int| 0 <= k < notes.len() && notes[k]@ == note
}

/// Whether `s` is a composite that has been neither coined nor activated in
/// the last `age_threshold` ticks before `current_tick` (a saturating
/// difference).
pub open spec fn is_stale_composite(s: Symbol, current_tick: u64, age_threshold: u64) -> bool {
    let last = if s.last_activated_tick >= s.coined_at_tick { s.last_activated_tick } else { s.coined_at_tick };
    let age: int = if current_tick >= last { current_tick - last } else { 0 };
    s.is_composite && age > age_threshold
}

pub open spec fn stale_pred(current_tick: u64, age_threshold: u64) -> spec_fn(Symbol) -> bool {
    |s: Symbol| is_stale_composite(s, current_tick, age_threshold)
}

pub open spec fn kept_pred(current_tick: u64, age_threshold: u64) -> spec_fn(Symbol) -> bool {
    |s: Symbol| !is_stale_composite(s, current_tick, age_threshold)
}

pub open spec fn composite_pred() -> spec_fn(Symbol) -> bool {
    |s: Symbol| s.is_composite
}

/// `after` is `before` once a basic symbol for `pattern_id` was coined (or
/// found) as `idx`: an existing symbol is returned with nothing changed;
/// otherwise a fresh symbol takes the next index.
pub open spec fn coined(
    before: SymbolLedger,
    after: SymbolLedger,
    pattern_id: u64,
    cluster: Seq<SignalId>,
    tick: u64,
    idx: u32,
) -> bool {
    if before.patterns().contains_key(pattern_id) {
        &&& idx == before.patterns()[pattern_id]
        &&& after.symbols() == before.symbols()
        &&& after.patterns() == before.patterns()
        &&& after.next() == before.next()
    } else {
        &&& idx == before.next()
        &&& after.next() == before.next() + 1
        &&& after.patterns() == before.patterns().insert(pattern_id, idx)
        &&& after.symbols().drop_last() == before.symbols()
        &&& after.symbols().len() == before.symbols().len() + 1
        &&& after.symbols().last().is_fresh_basic(idx, pattern_id, cluster, tick)
    }
}

/// Whether `s` can be the content of a ledger whose next index is `next`:
/// indices strictly increase and stay below `next`, and no two basic symbols
/// are grounded in the same pattern.
pub open spec fn restorable(s: Seq<Symbol>, next: u32) -> bool {
    &&& strictly_ordered(s)
    &&& forall|i: int| 0 <= i < s.len() ==> s[i].index < next
    &&& forall|i: int, j: int| 0 <= i < j < s.len() && !s[i].is_composite && !s[j].is_composite
        ==> s[i].pattern_id != s[j].pattern_id
}

/// Maps pattern IDs to coined symbols.
pub struct SymbolLedger {
    symbols: Vec<Symbol>,
    pattern_to_symbol: HashMap<u64, u32>,
    next_index: u32,
}

impl SymbolLedger {
    /// All symbols, in coining order (strictly increasing index).
    pub closed spec fn symbols(&self) -> Seq<Symbol> {
        self.symbols@
    }

    /// Pattern id → index of the basic symbol grounded in it.
    pub closed spec fn patterns(&self) -> Map<u64, u32> {
        self.pattern_to_symbol@
    }

    /// The index the next coined symbol receives.
    pub closed spec fn next(&self) -> u32 {
        self.next_index
    }

    /// The symbol with index `idx`, if any.
    pub open spec fn lookup(&self, idx: u32) -> Option<Symbol> {
        lookup_in(self.symbols(), idx)
    }

    /// Structural well-formedness:
    /// indices strictly increase and stay below `next`;
    /// every basic symbol is the one registered for its pattern, and every
    /// registered pattern points at a basic symbol grounded in it.
    pub closed spec fn wf(&self) -> bool {
        let s = self.symbols@;
        let m = self.pattern_to_symbol@;
        &&& strictly_ordered(s)
        &&& forall|i: int| 0 <= i < s.len() ==> s[i].index < self.next_index
        &&& forall|i: int| 0 <= i < s.len() && !s[i].is_composite ==>
            m.contains_key(s[i].pattern_id) && m[s[i].pattern_id] == s[i].index
        &&& forall|p: u64| m.contains_key(p) ==> (match lookup_in(s, m[p]) {
            Some(y) => !y.is_composite && y.pattern_id == p,
            None => false,
        })
    }

    pub proof fn lemma_wf_facts(&self)
        requires
            self.wf(),
        ensures
            strictly_ordered(self.symbols()),
            forall|i: int| 0 <= i < self.symbols().len() ==> self.symbols()[i].index < self.next(),
            forall|i: int| 0 <= i < self.symbols().len() && !self.symbols()[i].is_composite ==>
                self.patterns().contains_key(self.symbols()[i].pattern_id)
                && self.patterns()[self.symbols()[i].pattern_id] == self.symbols()[i].index,
            forall|p: u64| #[trigger] self.patterns().contains_key(p) ==>
                self.lookup(self.patterns()[p]) is Some
                && !self.lookup(self.patterns()[p]).unwrap().is_composite
                && self.lookup(self.patterns()[p]).unwrap().pattern_id == p,
    {
    }

    /// A ledger holding `symbols` (as saved, in coining order) with
    /// `next_index` as the next index to coin; `None` when they do not form a
    /// valid ledger. The pattern map is rebuilt from the basic symbols.
    pub fn restore(symbols: Vec<Symbol>, next_index: u32) -> (r: Option<SymbolLedger>)
        ensures
            r is Some <==> restorable(symbols@, next_index),
            r matches Some(l) ==> {
                &&& l.wf()
                &&& l.symbols() == symbols@
                &&& l.next() == next_index
                &&& forall|p: u64| l.patterns().contains_key(p) <==> exists|i: int|
                    0 <= i < symbols@.len() && !symbols@[i].is_composite && #[trigger] symbols@[i].pattern_id == p
            },
    {
        let ghost s = symbols@;
        let mut map: HashMap<u64, u32> = HashMap::new();
        let mut k: usize = 0;
        while k < symbols.len()
            invariant
                s == symbols@,
                k <= s.len(),
                strictly_ordered(s.take(k as int)),
                forall|i: int| 0 <= i < k ==> s[i].index < next_index,
                forall|i: int, j: int| 0 <= i < j < k && !s[i].is_composite && !s[j].is_composite
                    ==> s[i].pattern_id != s[j].pattern_id,
                forall|p: u64| map@.contains_key(p) ==> exists|i: int|
                    0 <= i < k && !s[i].is_composite && #[trigger] s[i].pattern_id == p && map@[p] == s[i].index,
                forall|i: int| 0 <= i < k && !s[i].is_composite ==> map@.contains_key(#[trigger] s[i].pattern_id)
                    && map@[s[i].pattern_id] == s[i].index,
            decreases s.len() - k,
        {
            let x = &symbols[k];
            if x.index >= next_index {
                return None;
            }
            if k > 0 && symbols[k - 1].index >= x.index {
                proof {
                    assert(!strictly_ordered(s));
                }
                return None;
            }
            proof {
                let t0 = s.take(k as int);
                let t = s.take(k + 1);
                assert forall|i: int, j: int| #![trigger t[i], t[j]] 0 <= i < j < t.len() implies t[i].index < t[j].index by {
                    assert(t[i] == s[i] && t[j] == s[j]);
                    if j == k && i < k - 1 {
                        assert(t0[i] == s[i] && t0[k - 1] == s[k - 1]);
                    }
                }
            }
            if !x.is_composite {
                if map.contains_key(&x.pattern_id) {
                    proof {
                        let i = choose|i: int| 0 <= i < k && !s[i].is_composite && #[trigger] s[i].pattern_id == x.pattern_id
                            && map@[x.pattern_id] == s[i].index;
                        assert(!restorable(s, next_index));
                    }
                    return None;
                }
                map.insert(x.pattern_id, x.index);
                proof {
                    assert forall|p: u64| map@.contains_key(p) implies exists|i: int|
                        0 <= i < k + 1 && !s[i].is_composite && #[trigger] s[i].pattern_id == p && map@[p] == s[i].index by {
                        if p == x.pattern_id {
                            assert(s[k as int].pattern_id == p);
                        }
                    }
                }
            }
            k = k + 1;
        }
        assert(s.take(s.len() as int) =~= s);
        let l = SymbolLedger { symbols, pattern_to_symbol: map, next_index };
        proof {
            assert forall|p: u64| l.pattern_to_symbol@.contains_key(p) implies (match lookup_in(s, l.pattern_to_symbol@[p]) {
                Some(y) => !y.is_composite && y.pattern_id == p,
                None => false,
            }) by {
                let i = choose|i: int| 0 <= i < s.len() && !s[i].is_composite && #[trigger] s[i].pattern_id == p
                    && l.pattern_to_symbol@[p] == s[i].index;
                lemma_lookup_at(s, i);
            }
            assert forall|p: u64| l.patterns().contains_key(p) <==> exists|i: int|
                0 <= i < s.len() && !s[i].is_composite && #[trigger] s[i].pattern_id == p by {
                if exists|i: int| 0 <= i < s.len() && !s[i].is_composite && #[trigger] s[i].pattern_id == p {
                    let i = choose|i: int| 0 <= i < s.len() && !s[i].is_composite && #[trigger] s[i].pattern_id == p;
                    assert(map@.contains_key(s[i].pattern_id));
                }
            }
        }
        Some(l)
    }

    /// An empty ledger.
    pub fn new() -> (l: SymbolLedger)
        ensures
            l.wf(),
            l.symbols().len() == 0,
            l.patterns().is_empty(),
            l.next() == 0,
    {
        SymbolLedger { symbols: Vec::new(), pattern_to_symbol: HashMap::new(), next_index: 0 }
    }

    fn position(&self, index: u32) -> (r: Option<usize>)
        requires
            self.wf(),
        ensures
            match r {
                Some(i) => i < self.symbols@.len() && self.symbols@[i as int].index == index
                    && self.lookup(index) == Some(self.symbols@[i as int]),
                None => self.lookup(index) is None,
            },
    {
        let mut i: usize = 0;
        while i < self.symbols.len()
            invariant
                self.wf(),
                i <= self.symbols@.len(),
                forall|k: int| 0 <= k < i ==> self.symbols@[k].index != index,
            decreases self.symbols@.len() - i,
        {
            if self.symbols[i].index == index {
                proof {
                    lemma_lookup_at(self.symbols@, i as int);
                }
                return Some(i);
            }
            i = i + 1;
        }
        proof {
            lemma_lookup_absent(self.symbols@, index);
        }
        None
    }

    /// The symbol with index `index`, if it exists.
    pub fn get(&self, index: u32) -> (r: Option<&Symbol>)
        requires
            self.wf(),
        ensures
            match r {
                Some(s) => self.lookup(index) == Some(*s),
                None => self.lookup(index) is None,
            },
    {
        match self.position(index) {
            Some(i) => Some(&self.symbols[i]),
            None => None,
        }
    }

    /// The index of the basic symbol grounded in `pattern_id`, if one was coined.
    pub fn by_pattern(&self, pattern_id: u64) -> (r: Option<u32>)
        requires
            self.wf(),
        ensures
            r == (if self.patterns().contains_key(pattern_id) {
                Some(self.patterns()[pattern_id])
            } else {
                None
            }),
    {
        match self.pattern_to_symbol.get(&pattern_id) {
            Some(i) => Some(*i),
            None => None,
        }
    }

    /// Coin a new symbol for a pattern, or return the existing one.
    pub fn coin(&mut self, pattern_id: u64, tick: u64) -> (idx: u32)
        requires
            old(self).wf(),
            old(self).patterns().contains_key(pattern_id) || old(self).next() < u32::MAX,
        ensures
            final(self).wf(),
            coined(*old(self), *final(self), pattern_id, Seq::empty(), tick, idx),
    {
        self.coin_with_cluster(pattern_id, Vec::new(), tick)
    }

    /// Coin a new basic symbol with a known signal cluster, or return the existing one.
    pub fn coin_with_cluster(&mut self, pattern_id: u64, cluster: Vec<SignalId>, tick: u64) -> (idx: u32)
        requires
            old(self).wf(),
            old(self).patterns().contains_key(pattern_id) || old(self).next() < u32::MAX,
        ensures
            final(self).wf(),
            coined(*old(self), *final(self), pattern_id, cluster@, tick, idx),
    {
        match self.pattern_to_symbol.get(&pattern_id) {
            Some(i) => {
                return *i;
            },
            None => {},
        }
        let idx = self.next_index;
        self.next_index = idx + 1;
        let mut sym = Symbol::new(idx, pattern_id, tick);
        sym.signal_cluster = cluster;
        self.symbols.push(sym);
        self.pattern_to_symbol.insert(pattern_id, idx);
        proof {
            let s0 = old(self).symbols@;
            let s1 = self.symbols@;
            assert(s1.drop_last() =~= s0);
            assert forall|p: u64| self.pattern_to_symbol@.contains_key(p) implies (match lookup_in(s1, self.pattern_to_symbol@[p]) {
                Some(y) => !y.is_composite && y.pattern_id == p,
                None => false,
            }) by {
                if p != pattern_id {
                    let j = old(self).pattern_to_symbol@[p];
                    let k = lemma_lookup_pos(s0, j);
                    assert(s0[k].index < old(self).next_index);
                }
            }
        }
        idx
    }

    /// Coin a composite symbol from parent symbols and their cluster intersection.
    pub fn coin_composite(&mut self, parents: Vec<u32>, cluster: Vec<SignalId>, tick: u64) -> (idx: u32)
        requires
            old(self).wf(),
            old(self).next() < u32::MAX,
        ensures
            final(self).wf(),
            idx == old(self).next(),
            final(self).next() == old(self).next() + 1,
            final(self).patterns() == old(self).patterns(),
            final(self).symbols().drop_last() == old(self).symbols(),
            final(self).symbols().len() == old(self).symbols().len() + 1,
            final(self).symbols().last().is_fresh_composite(idx, parents@, cluster@, tick),
    {
        let idx = self.next_index;
        self.next_index = idx + 1;
        let sym = Symbol::new_composite(idx, parents, cluster, tick);
        self.symbols.push(sym);
        proof {
            let s0 = old(self).symbols@;
            let s1 = self.symbols@;
            assert(s1.drop_last() =~= s0);
            assert forall|p: u64| self.pattern_to_symbol@.contains_key(p) implies (match lookup_in(s1, self.pattern_to_symbol@[p]) {
                Some(y) => !y.is_composite && y.pattern_id == p,
                None => false,
            }) by {
                let j = old(self).pattern_to_symbol@[p];
                let k = lemma_lookup_pos(s0, j);
                assert(s0[k].index < old(self).next_index);
            }
        }
        idx
    }

    /// Prune composites unactivated (or uncoined) for longer than age_threshold ticks.
    /// Returns the indices of pruned composites, in coining order.
    pub fn prune_composites(&mut self, current_tick: u64, age_threshold: u64) -> (pruned: Vec<u32>)
        requires
            old(self).wf(),
        ensures
            final(self).wf(),
            final(self).symbols() == old(self).symbols().filter(kept_pred(current_tick, age_threshold)),
            pruned@ == old(self).symbols().filter(stale_pred(current_tick, age_threshold)).map_values(
                |s: Symbol| s.index,
            ),
            final(self).patterns() == old(self).patterns(),
            final(self).next() == old(self).next(),
    {
        let ghost s0 = self.symbols@;
        let ghost keep = kept_pred(current_tick, age_threshold);
        let ghost stale = stale_pred(current_tick, age_threshold);
        let mut old_syms: Vec<Symbol> = Vec::new();
        std::mem::swap(&mut old_syms, &mut self.symbols);
        let mut kept: Vec<Symbol> = Vec::new();
        let mut pruned: Vec<u32> = Vec::new();
        let n = old_syms.len();
        let mut remaining: Vec<Symbol> = Vec::new();
        // Move the symbols out in reverse so that they can be taken one by one from the back.
        while old_syms.len() > 0
            invariant
                old_syms@ + remaining@.reverse() == s0,
            decreases old_syms.len(),
        {
            let ghost before = old_syms@;
            let x = old_syms.pop().unwrap();
            remaining.push(x);
            assert(old_syms@ + remaining@.reverse() =~= s0);
        }
        assert(remaining@.reverse() =~= s0);
        let mut k: usize = 0;
        while k < n
            invariant
                n == s0.len(),
                k <= n,
                remaining@.len() == n - k,
                forall|t: int| 0 <= t < n - k ==> remaining@[t] == s0[n - 1 - t],
                strictly_ordered(s0),
                kept@ == s0.take(k as int).filter(keep),
                pruned@ == s0.take(k as int).filter(stale).map_values(|s: Symbol| s.index),
                strictly_ordered(kept@),
                k < n ==> forall|t: int| 0 <= t < kept@.len() ==> kept@[t].index < s0[k as int].index,
                keep == kept_pred(current_tick, age_threshold),
                stale == stale_pred(current_tick, age_threshold),
            decreases n - k,
        {
            let x = remaining.pop().unwrap();
            assert(x == s0[k as int]);
            assert(s0.take(k + 1) =~= s0.take(k as int).push(x));
            proof {
                s0.take(k as int).lemma_filter_push(x, keep);
                s0.take(k as int).lemma_filter_push(x, stale);
            }
            let ghost pre_pruned = pruned@;
            let is_stale = {
                let last = if x.last_activated_tick >= x.coined_at_tick { x.last_activated_tick } else { x.coined_at_tick };
                let age = current_tick.saturating_sub(last);
                x.is_composite && age > age_threshold
            };
            if is_stale {
                pruned.push(x.index);
                assert(pruned@ =~= s0.take(k + 1).filter(stale).map_values(|s: Symbol| s.index));
            } else {
                kept.push(x);
                assert(s0.take(k + 1).filter(stale) == s0.take(k as int).filter(stale));
            }
            proof {
                if k + 1 < n {
                    assert(s0[k as int].index < s0[k + 1].index);
                }
            }
            k = k + 1;
        }
        assert(s0.take(n as int) =~= s0);
        self.symbols = kept;
        proof {
            let s1 = self.symbols@;
            assert forall|i: int| 0 <= i < s1.len() implies s1[i].index < self.next_index by {
                s0.lemma_filter_pred(keep, i);
                assert(s0.filter(keep).contains(s1[i]));
                s0.lemma_filter_contains_rev(keep, s1[i]);
            }
            assert forall|i: int| 0 <= i < s1.len() && !s1[i].is_composite implies
                self.pattern_to_symbol@.contains_key(s1[i].pattern_id)
                && self.pattern_to_symbol@[s1[i].pattern_id] == s1[i].index by {
                assert(s0.filter(keep).contains(s1[i]));
                s0.lemma_filter_contains_rev(keep, s1[i]);
            }
            assert forall|p: u64| self.pattern_to_symbol@.contains_key(p) implies (match lookup_in(s1, self.pattern_to_symbol@[p]) {
                Some(y) => !y.is_composite && y.pattern_id == p,
                None => false,
            }) by {
                lemma_lookup_filter(s0, keep, self.pattern_to_symbol@[p]);
            }
        }
        pruned
    }

    /// Records an activation of symbol `index` at `tick` (its count grows by
    /// one and its last-activation tick becomes `tick`). Returns whether the
    /// symbol exists; the ledger is unchanged when it does not.
    pub fn activate(&mut self, index: u32, tick: u64) -> (found: bool)
        requires
            old(self).wf(),
            old(self).lookup(index) matches Some(s) ==> s.activation_count < u64::MAX,
        ensures
            final(self).wf(),
            found == old(self).lookup(index) is Some,
            final(self).patterns() == old(self).patterns(),
            final(self).next() == old(self).next(),
            final(self).symbols().len() == old(self).symbols().len(),
            forall|j: u32| j != index ==> #[trigger] final(self).lookup(j) == old(self).lookup(j),
            old(self).lookup(index) matches Some(s) ==> final(self).lookup(index) matches Some(t) && {
                &&& t.activation_count == s.activation_count + 1
                &&& t.last_activated_tick == tick
                &&& t.token == s.token
                &&& t.index == s.index
                &&& t.pattern_id == s.pattern_id
                &&& t.directive_notes == s.directive_notes
                &&& t.is_composite == s.is_composite
                &&& t.parents == s.parents
                &&& t.signal_cluster == s.signal_cluster
                &&& t.coined_at_tick == s.coined_at_tick
            },
    {
        match self.position(index) {
            None => false,
            Some(i) => {
                let ghost s0 = self.symbols@;
                self.symbols[i].activate(tick);
                proof {
                    self.lemma_update_keeps_structure(s0, i as int);
                }
                true
            },
        }
    }

    /// Add a directive note to a symbol (from self-modification), unless the
    /// symbol already carries a note with the same text.
    pub fn annotate(&mut self, index: u32, note: String)
        requires
            old(self).wf(),
        ensures
            final(self).wf(),
            final(self).patterns() == old(self).patterns(),
            final(self).next() == old(self).next(),
            final(self).symbols().len() == old(self).symbols().len(),
            forall|j: u32| j != index ==> #[trigger] final(self).lookup(j) == old(self).lookup(j),
            old(self).lookup(index) is None ==> final(self).lookup(index) is None,
            old(self).lookup(index) matches Some(s) ==> final(self).lookup(index) matches Some(t) && {
                &&& t.directive_notes@ == (if has_note(s.directive_notes@, note@) {
                    s.directive_notes@
                } else {
                    s.directive_notes@.push(note)
                })
                &&& t.activation_count == s.activation_count
                &&& t.last_activated_tick == s.last_activated_tick
                &&& t.token == s.token
                &&& t.index == s.index
                &&& t.pattern_id == s.pattern_id
                &&& t.is_composite == s.is_composite
                &&& t.parents == s.parents
                &&& t.signal_cluster == s.signal_cluster
                &&& t.coined_at_tick == s.coined_at_tick
            },
    {
        match self.position(index) {
            None => {},
            Some(i) => {
                let mut present = false;
                let mut k: usize = 0;
                while k < self.symbols[i].directive_notes.len()
                    invariant
                        i < self.symbols@.len(),
                        k <= self.symbols@[i as int].directive_notes@.len(),
                        present == exists|m: int| 0 <= m < k && self.symbols@[i as int].directive_notes@[m]@ == note@,
                    decreases self.symbols@[i as int].directive_notes@.len() - k,
                {
                    if self.symbols[i].directive_notes[k] == note {
                        present = true;
                    }
                    k = k + 1;
                }
                if !present {
                    let ghost s0 = self.symbols@;
                    self.symbols[i].directive_notes.push(note);
                    proof {
                        self.lemma_update_keeps_structure(s0, i as int);
                    }
                }
            },
        }
    }

    /// Replacing the entry at position `i` by one with the same index, pattern
    /// and kind keeps the ledger well formed and every other lookup unchanged.
    proof fn lemma_update_keeps_structure(&self, s0: Seq<Symbol>, i: int)
        requires
            0 <= i < s0.len(),
            self.symbols@.len() == s0.len(),
            forall|t: int| 0 <= t < s0.len() && t != i ==> self.symbols@[t] == s0[t],
            self.symbols@[i].index == s0[i].index,
            self.symbols@[i].pattern_id == s0[i].pattern_id,
            self.symbols@[i].is_composite == s0[i].is_composite,
            strictly_ordered(s0),
            forall|t: int| 0 <= t < s0.len() ==> s0[t].index < self.next_index,
            forall|t: int| 0 <= t < s0.len() && !s0[t].is_composite ==>
                self.pattern_to_symbol@.contains_key(s0[t].pattern_id)
                && self.pattern_to_symbol@[s0[t].pattern_id] == s0[t].index,
            forall|p: u64| self.pattern_to_symbol@.contains_key(p) ==> (match lookup_in(s0, self.pattern_to_symbol@[p]) {
                Some(y) => !y.is_composite && y.pattern_id == p,
                None => false,
            }),
        ensures
            self.wf(),
            forall|j: u32| j != s0[i].index ==> #[trigger] lookup_in(self.symbols@, j) == lookup_in(s0, j),
            lookup_in(self.symbols@, s0[i].index) == Some(self.symbols@[i]),
            lookup_in(s0, s0[i].index) == Some(s0[i]),
    {
        let s1 = self.symbols@;
        assert(strictly_ordered(s1)) by {
            assert forall|a: int, b: int| 0 <= a < b < s1.len() implies s1[a].index < s1[b].index by {
                assert(s0[a].index < s0[b].index);
            }
        }
        lemma_lookup_at(s1, i);
        lemma_lookup_at(s0, i);
        assert forall|t: int| 0 <= t < s1.len() implies s1[t].index < self.next_index by {
            if t != i {
                assert(s1[t] == s0[t]);
            }
        }
        assert forall|t: int| 0 <= t < s1.len() && !s1[t].is_composite implies
            self.pattern_to_symbol@.contains_key(s1[t].pattern_id)
            && self.pattern_to_symbol@[s1[t].pattern_id] == s1[t].index by {
            if t != i {
                assert(s1[t] == s0[t]);
            }
        }
        assert forall|j: u32| j != s0[i].index implies #[trigger] lookup_in(s1, j) == lookup_in(s0, j) by {
            if lookup_in(s0, j) is Some {
                let k = lemma_lookup_pos(s0, j);
                lemma_lookup_at(s1, k);
            } else {
                assert forall|t: int| 0 <= t < s1.len() implies s1[t].index != j by {
                    if t != i && s1[t].index == j {
                        lemma_lookup_at(s0, t);
                    }
                }
                lemma_lookup_absent(s1, j);
            }
        }
        assert forall|p: u64| self.pattern_to_symbol@.contains_key(p) implies (match lookup_in(s1, self.pattern_to_symbol@[p]) {
            Some(y) => !y.is_composite && y.pattern_id == p,
            None => false,
        }) by {
            let j = self.pattern_to_symbol@[p];
            if j == s0[i].index {
                assert(lookup_in(s0, j) == Some(s0[i]));
            } else {
                assert(lookup_in(s1, j) == lookup_in(s0, j));
            }
        }
    }

    /// Composite symbols only, in coining order.
    pub fn composites(&self) -> (r: Vec<&Symbol>)
        requires
            self.wf(),
        ensures
            r@.map_values(|s: &Symbol| *s) == self.symbols().filter(composite_pred()),
    {
        let mut r: Vec<&Symbol> = Vec::new();
        let mut k: usize = 0;
        let ghost s0 = self.symbols@;
        let ghost pred = composite_pred();
        while k < self.symbols.len()
            invariant
                s0 == self.symbols@,
                k <= s0.len(),
                pred == composite_pred(),
                r@.map_values(|s: &Symbol| *s) == s0.take(k as int).filter(pred),
            decreases s0.len() - k,
        {
            assert(s0.take(k + 1) =~= s0.take(k as int).push(s0[k as int]));
            proof {
                s0.take(k as int).lemma_filter_push(s0[k as int], pred);
            }
            if self.symbols[k].is_composite {
                r.push(&self.symbols[k]);
                assert(r@.map_values(|s: &Symbol| *s) =~= s0.take(k + 1).filter(pred));
            } else {
            }
            k = k + 1;
        }
        assert(s0.take(s0.len() as int) =~= s0);
        r
    }

    /// All symbols, in coining order.
    pub fn all(&self) -> (r: &Vec<Symbol>)
        ensures
            r@ == self.symbols(),
    {
        &self.symbols
    }

    /// Number of symbols in the ledger.
    /// The index the next coined symbol receives.
    pub fn next_index(&self) -> (r: u32)
        ensures
            r == self.next(),
    {
        self.next_index
    }

    pub fn len(&self) -> (n: usize)
        ensures
            n == self.symbols().len(),
    {
        self.symbols.len()
    }
}

/// Coining is idempotent per pattern: coining a pattern a second time
/// returns the index of the first time and leaves the ledger as it was.
pub proof fn law_coin_idempotent(
    a: SymbolLedger,
    b: SymbolLedger,
    c: SymbolLedger,
    pattern_id: u64,
    cluster1: Seq<SignalId>,
    cluster2: Seq<SignalId>,
    t1: u64,
    t2: u64,
    i: u32,
    j: u32,
)
    requires
        coined(a, b, pattern_id, cluster1, t1, i),
        coined(b, c, pattern_id, cluster2, t2, j),
    ensures
        j == i,
        c.symbols() == b.symbols(),
        c.patterns() == b.patterns(),
        c.next() == b.next(),
{
}

/// After coining, the returned index names a basic symbol grounded in the pattern.
pub proof fn law_coin_then_lookup(a: SymbolLedger, b: SymbolLedger, pattern_id: u64, cluster: Seq<SignalId>, tick: u64, i: u32)
    requires
        b.wf(),
        coined(a, b, pattern_id, cluster, tick, i),
    ensures
        b.lookup(i) matches Some(s) && !s.is_composite && s.pattern_id == pattern_id,
{
    b.lemma_wf_facts();
    assert(b.patterns().contains_key(pattern_id));
}

/// A newly coined symbol takes an index that no symbol had before.
pub proof fn law_coin_fresh_index(a: SymbolLedger, b: SymbolLedger, pattern_id: u64, cluster: Seq<SignalId>, tick: u64, i: u32)
    requires
        a.wf(),
        !a.patterns().contains_key(pattern_id),
        coined(a, b, pattern_id, cluster, tick, i),
    ensures
        a.lookup(i) is None,
        forall|k: int| 0 <= k < a.symbols().len() ==> a.symbols()[k].index != i,
{
    a.lemma_wf_facts();
    lemma_lookup_absent(a.symbols(), i);
}

/// Pruning removes stale composites only: every basic symbol survives, and
/// no stale composite does.
pub proof fn law_prune_keeps_basic(before: SymbolLedger, after: SymbolLedger, current_tick: u64, age_threshold: u64)
    requires
        after.symbols() == before.symbols().filter(kept_pred(current_tick, age_threshold)),
    ensures
        forall|i: int| 0 <= i < before.symbols().len() && !before.symbols()[i].is_composite
            ==> after.symbols().contains(before.symbols()[i]),
        forall|i: int| 0 <= i < after.symbols().len() ==> !is_stale_composite(after.symbols()[i], current_tick, age_threshold),
{
    let s = before.symbols();
    let keep = kept_pred(current_tick, age_threshold);
    s.filter_lemma(keep);
    assert forall|i: int| 0 <= i < s.len() && !s[i].is_composite implies after.symbols().contains(s[i]) by {
        assert(keep(s[i]));
    }
    assert forall|i: int| 0 <= i < after.symbols().len() implies !is_stale_composite(after.symbols()[i], current_tick, age_threshold) by {
        assert(keep(s.filter(keep)[i]));
    }
}

} // verus!
