//! Grounding symbols in salient patterns, and when composites fire.
use vstd::prelude::*;
use crate::pattern::index::{PatternIndex, salient_pred};
use crate::pattern::record::PatternRecord;
use crate::signal::types::SignalId;
use crate::symbol::ledger::{Symbol, SymbolLedger, coined, lookup_in};

verus! {

/// Records that have no symbol in `patterns` yet.
pub open spec fn lacks_symbol(patterns: Map<u64, u32>) -> spec_fn(PatternRecord) -> bool {
    |r: PatternRecord| !patterns.contains_key(r.id)
}

/// `sym` is a fresh basic symbol grounded in a salient record of `records`.
pub open spec fn grounded_at(sym: Symbol, records: Seq<PatternRecord>, tick: u64) -> bool {
    exists|j: int| #![trigger records[j]] 0 <= j < records.len() && records[j].frequency >= 5
        && sym.is_fresh_basic(sym.index, records[j].id, records[j].signal_set@, tick)
}

/// Every symbol of `after` beyond the prefix `before` is a fresh basic
/// symbol grounded in a salient record of `records`, coined at `tick`.
pub open spec fn symbols_grounded(before: Seq<Symbol>, after: Seq<Symbol>, records: Seq<PatternRecord>, tick: u64) -> bool {
    forall|i: int| #![trigger after[i]] before.len() <= i < after.len() ==> grounded_at(after[i], records, tick)
}

fn copy_ids(v: &Vec<SignalId>) -> (r: Vec<SignalId>)
    ensures
        r@ == v@,
{
    let mut r: Vec<SignalId> = Vec::new();
    let mut i: usize = 0;
    while i < v.len()
        invariant
            i <= v@.len(),
            r@ == v@.take(i as int),
        decreases v@.len() - i,
    {
        r.push(v[i]);
        assert(r@ =~= v@.take(i + 1));
        i = i + 1;
    }
    assert(v@.take(v@.len() as int) =~= v@);
    r
}

/// Coin a symbol for every salient pattern that has none yet, grounded in
/// the pattern's signal set. Existing symbols and their patterns are kept.
pub fn coin_salient(index: &PatternIndex, ledger: &mut SymbolLedger, tick: u64)
    requires
        old(ledger).wf(),
        old(ledger).next() + index.records().filter(salient_pred()).filter(lacks_symbol(old(ledger).patterns())).len()
            <= u32::MAX,
    ensures
        final(ledger).wf(),
        forall|i: int| 0 <= i < index.records().len() && index.records()[i].frequency >= 5
            ==> final(ledger).patterns().contains_key(#[trigger] index.records()[i].id),
        forall|p: u64| #[trigger] old(ledger).patterns().contains_key(p) ==> final(ledger).patterns().contains_key(p)
            && final(ledger).patterns()[p] == old(ledger).patterns()[p],
        forall|p: u64| #[trigger] final(ledger).patterns().contains_key(p) ==> old(ledger).patterns().contains_key(p)
            || exists|i: int| 0 <= i < index.records().len() && index.records()[i].frequency >= 5
                && index.records()[i].id == p,
        final(ledger).symbols().len() >= old(ledger).symbols().len(),
        final(ledger).symbols().subrange(0, old(ledger).symbols().len() as int) == old(ledger).symbols(),
        symbols_grounded(old(ledger).symbols(), final(ledger).symbols(), index.records(), tick),
{
    let sal = index.salient();
    let ghost s = index.records().filter(salient_pred());
    let ghost lack0 = lacks_symbol(old(ledger).patterns());
    let ghost m0 = old(ledger).patterns();
    let ghost s0 = old(ledger).symbols();
    let ghost n0 = old(ledger).next();
    proof {
        assert(sal@.map_values(|x: &PatternRecord| *x) == s);
        index.records().filter_lemma(salient_pred());
    }
    proof {
        assert forall|j: int| 0 <= j < s.len() implies index.records().contains(#[trigger] s[j]) by {
            assert(s.contains(s[j]));
            index.records().lemma_filter_contains_rev(salient_pred(), s[j]);
        }
    }
    let ghost mut added: nat = 0;
    let mut k: usize = 0;
    assert(s.take(0) =~= Seq::<PatternRecord>::empty());
    assert(s.take(0).filter(lack0) =~= Seq::<PatternRecord>::empty()) by {
        s.take(0).lemma_filter_len(lack0);
    }
    assert(ledger.symbols().subrange(0, s0.len() as int) =~= s0);
    while k < sal.len()
        invariant
            sal@.map_values(|x: &PatternRecord| *x) == s,
            s == index.records().filter(salient_pred()),
            forall|j: int| 0 <= j < s.len() ==> (#[trigger] s[j]).frequency >= 5,
            forall|j: int| 0 <= j < s.len() ==> index.records().contains(#[trigger] s[j]),
            lack0 == lacks_symbol(m0),
            k <= s.len(),
            ledger.wf(),
            ledger.next() == n0 + added,
            added <= s.take(k as int).filter(lack0).len(),
            n0 + s.filter(lack0).len() <= u32::MAX,
            forall|p: u64| #[trigger] m0.contains_key(p) ==> ledger.patterns().contains_key(p) && ledger.patterns()[p] == m0[p],
            forall|j: int| 0 <= j < k ==> ledger.patterns().contains_key(#[trigger] s[j].id),
            forall|p: u64| #[trigger] ledger.patterns().contains_key(p) ==> m0.contains_key(p)
                || exists|j: int| 0 <= j < k && s[j].id == p,
            ledger.symbols().len() >= s0.len(),
            ledger.symbols().subrange(0, s0.len() as int) == s0,
            forall|i: int| s0.len() <= i < ledger.symbols().len() ==> exists|j: int| 0 <= j < k
                && (#[trigger] ledger.symbols()[i]).is_fresh_basic(ledger.symbols()[i].index, s[j].id, s[j].signal_set@, tick),
        decreases s.len() - k,
    {
        let r = sal[k];
        assert(*r == s[k as int]);
        proof {
            assert(s.take(k + 1) =~= s.take(k as int).push(s[k as int]));
            s.take(k as int).lemma_filter_push(s[k as int], lack0);
            assert(s =~= s.take(k + 1) + s.skip(k + 1));
            vstd::seq_lib::lemma_seq_skip_nothing(s, 0);
            Seq::filter_distributes_over_add(s.take(k + 1), s.skip(k + 1), lack0);
        }
        let is_new = ledger.by_pattern(r.id).is_none();
        let ghost before = *ledger;
        proof {
            if is_new {
                assert(!ledger.patterns().contains_key(r.id));
                if m0.contains_key(r.id) {
                    assert(ledger.patterns().contains_key(r.id));
                }
                assert(!m0.contains_key(r.id));
                assert(s.take(k + 1).filter(lack0).len() == s.take(k as int).filter(lack0).len() + 1);
            }
        }
        let cluster = copy_ids(&r.signal_set);
        let idx = ledger.coin_with_cluster(r.id, cluster, tick);
        proof {
            assert(coined(before, *ledger, r.id, r.signal_set@, tick, idx));
            assert forall|p: u64| m0.contains_key(p) implies ledger.patterns().contains_key(p)
                && ledger.patterns()[p] == m0[p] by {
                assert(before.patterns().contains_key(p));
                if is_new {
                    assert(p != r.id);
                }
            }
            if is_new {
                added = added + 1;
                let t = ledger.symbols();
                assert(t.drop_last() == before.symbols());
                assert forall|i: int| s0.len() <= i < t.len() implies exists|j: int| 0 <= j < k + 1
                    && (#[trigger] t[i]).is_fresh_basic(t[i].index, s[j].id, s[j].signal_set@, tick) by {
                    if i < t.len() - 1 {
                        assert(t[i] == before.symbols()[i]);
                    } else {
                        assert(t[i].is_fresh_basic(t[i].index, s[k as int].id, s[k as int].signal_set@, tick));
                    }
                }
                assert(t.subrange(0, s0.len() as int) =~= before.symbols().subrange(0, s0.len() as int));
            }
        }
        k = k + 1;
    }
    proof {
        assert(s.take(s.len() as int) =~= s);
        assert forall|i: int| 0 <= i < index.records().len() && index.records()[i].frequency >= 5
            implies ledger.patterns().contains_key(#[trigger] index.records()[i].id) by {
            index.records().lemma_filter_contains(salient_pred(), i);
            let j = choose|j: int| 0 <= j < s.len() && s[j] == index.records()[i];
            assert(ledger.patterns().contains_key(s[j].id));
        }
        assert forall|p: u64| #[trigger] ledger.patterns().contains_key(p) implies m0.contains_key(p)
            || exists|i: int| 0 <= i < index.records().len() && index.records()[i].frequency >= 5
                && index.records()[i].id == p by {
            if !m0.contains_key(p) {
                let j = choose|j: int| 0 <= j < k && s[j].id == p;
                let i = choose|i: int| 0 <= i < index.records().len() && index.records()[i] == s[j];
            }
        }
        let t = ledger.symbols();
        let recs = index.records();
        assert forall|i: int| s0.len() <= i < t.len() implies grounded_at(t[i], recs, tick) by {
            let j = choose|j: int| 0 <= j < k
                && (#[trigger] t[i]).is_fresh_basic(t[i].index, s[j].id, s[j].signal_set@, tick);
            assert(recs.contains(s[j]));
            let jj = choose|jj: int| 0 <= jj < recs.len() && recs[jj] == s[j];
            assert(recs[jj].frequency >= 5);
            assert(t[i].is_fresh_basic(t[i].index, recs[jj].id, recs[jj].signal_set@, tick));
        }
        assert(symbols_grounded(s0, t, recs, tick));
    }
}

/// Whether composite `idx` fires given the symbols in `active`: it exists,
/// is a composite with parents, and every parent exists and is active.
pub open spec fn fires(symbols: Seq<Symbol>, idx: u32, active: Seq<u32>) -> bool {
    match lookup_in(symbols, idx) {
        Some(c) => c.is_composite && c.parents@.len() > 0 && forall|i: int| 0 <= i < c.parents@.len()
            ==> lookup_in(symbols, #[trigger] c.parents@[i]) is Some && active.contains(c.parents@[i]),
        None => false,
    }
}

fn contains_u32(v: &[u32], x: u32) -> (r: bool)
    ensures
        r == v@.contains(x),
{
    let mut i: usize = 0;
    while i < v.len()
        invariant
            i <= v@.len(),
            forall|t: int| 0 <= t < i ==> v@[t] != x,
        decreases v@.len() - i,
    {
        if v[i] == x {
            return true;
        }
        i = i + 1;
    }
    false
}

/// Whether composite `idx` fires: all its parents are active.
pub fn composite_fires(ledger: &SymbolLedger, idx: u32, active: &[u32]) -> (r: bool)
    requires
        ledger.wf(),
    ensures
        r == fires(ledger.symbols(), idx, active@),
{
    let c = match ledger.get(idx) {
        Some(c) => c,
        None => { return false; },
    };
    if !c.is_composite || c.parents.len() == 0 {
        return false;
    }
    let mut i: usize = 0;
    while i < c.parents.len()
        invariant
            ledger.wf(),
            ledger.lookup(idx) == Some(*c),
            i <= c.parents@.len(),
            forall|t: int| 0 <= t < i ==> lookup_in(ledger.symbols(), #[trigger] c.parents@[t]) is Some
                && active@.contains(c.parents@[t]),
        decreases c.parents@.len() - i,
    {
        let p = c.parents[i];
        let present = ledger.get(p).is_some();
        if !present || !contains_u32(active, p) {
            return false;
        }
        i = i + 1;
    }
    true
}

} // verus!
