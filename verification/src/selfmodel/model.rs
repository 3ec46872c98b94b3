//! The self-model's memory of which actions it took in which symbol contexts.
use vstd::prelude::*;

verus! {

/// What the self-model remembers of one coarse history step: the symbols that
/// were active and the action taken, if any.
#[derive(Debug, Clone)]
pub struct ContextEntry {
    pub active_symbols: Vec<u32>,
    pub action_taken: Option<u32>,
}

/// Whether the context `active` shares a symbol with `current`.
pub open spec fn shares_symbol(active: Seq<u32>, current: Seq<u32>) -> bool {
    exists|i: int| 0 <= i < active.len() && current.contains(active[i])
}

/// Whether some entry of `h` shares a symbol with `current`.
pub open spec fn any_similar(h: Seq<ContextEntry>, current: Seq<u32>) -> bool {
    exists|i: int| 0 <= i < h.len() && shares_symbol(h[i].active_symbols@, current)
}

/// For each candidate action taken in a context that shares a symbol with
/// `current`, how many such contexts it was taken in.
pub open spec fn action_tally(h: Seq<ContextEntry>, current: Seq<u32>, candidates: Seq<u32>) -> Map<u32, nat>
    decreases h.len(),
{
    if h.len() == 0 {
        Map::empty()
    } else {
        let m = action_tally(h.drop_last(), current, candidates);
        let e = h.last();
        match e.action_taken {
            Some(a) if shares_symbol(e.active_symbols@, current) && candidates.contains(a) =>
                m.insert(a, if m.contains_key(a) { m[a] + 1 } else { 1 }),
            _ => m,
        }
    }
}

/// Whether `list` (unique actions) holds exactly the entries of `tally`.
pub open spec fn lists_tally(list: Seq<(u32, usize)>, tally: Map<u32, nat>) -> bool {
    &&& forall|i: int, j: int| 0 <= i < j < list.len() ==> list[i].0 != list[j].0
    &&& forall|i: int| 0 <= i < list.len() ==> tally.contains_key(#[trigger] list[i].0) && tally[list[i].0] == list[i].1
    &&& forall|a: u32| tally.contains_key(a) ==> exists|i: int| 0 <= i < list.len() && #[trigger] list[i].0 == a
}

fn contains_u32(v: &[u32], x: u32) -> (r: bool)
    ensures
        r == v@.contains(x),
{
    let mut i: usize = 0;
    while i < v.len()
        invariant
            i <= v@.len(),
            forall|t: int| 0 <= t < i ==> v@[t] != x,
        decreases v@.len() - i,
    {
        if v[i] == x {
            return true;
        }
        i = i + 1;
    }
    false
}

fn shares_symbol_exec(active: &Vec<u32>, current: &[u32]) -> (r: bool)
    ensures
        r == shares_symbol(active@, current@),
{
    let mut i: usize = 0;
    while i < active.len()
        invariant
            i <= active@.len(),
            forall|t: int| 0 <= t < i ==> !current@.contains(active@[t]),
        decreases active@.len() - i,
    {
        if contains_u32(current, active[i]) {
            return true;
        }
        i = i + 1;
    }
    false
}

/// How often each candidate action was taken in past contexts that share a
/// symbol with the current one; `None` when no past context shares one (the
/// caller then falls back to its learned action preferences).
pub fn context_action_counts(history: &[ContextEntry], current: &[u32], candidates: &[u32]) -> (r: Option<Vec<(u32, usize)>>)
    ensures
        match r {
            None => !any_similar(history@, current@),
            Some(list) => any_similar(history@, current@) && lists_tally(list@, action_tally(history@, current@, candidates@)),
        },
{
    let mut list: Vec<(u32, usize)> = Vec::new();
    let mut seen: bool = false;
    let mut k: usize = 0;
    while k < history.len()
        invariant
            k <= history@.len(),
            seen == any_similar(history@.take(k as int), current@),
            lists_tally(list@, action_tally(history@.take(k as int), current@, candidates@)),
            forall|i: int| 0 <= i < list@.len() ==> list@[i].1 <= k,
        decreases history@.len() - k,
    {
        let e = &history[k];
        let ghost h0 = history@.take(k as int);
        let ghost h1 = history@.take(k + 1);
        let ghost m0 = action_tally(h0, current@, candidates@);
        proof {
            assert(h1.drop_last() =~= h0);
            assert(h1.last() == *e);
        }
        let similar = shares_symbol_exec(&e.active_symbols, current);
        proof {
            if similar {
                assert(h1[k as int] == *e);
            } else {
                assert forall|i: int| 0 <= i < h1.len() && shares_symbol(h1[i].active_symbols@, current@)
                    implies 0 <= i < h0.len() && shares_symbol(h0[i].active_symbols@, current@) by {
                    if i == k {
                        assert(h1[i] == *e);
                    } else {
                        assert(h1[i] == h0[i]);
                    }
                }
            }
            if seen {
                let i = choose|i: int| 0 <= i < h0.len() && shares_symbol(h0[i].active_symbols@, current@);
                assert(h1[i] == h0[i]);
            }
        }
        if similar {
            seen = true;
            match e.action_taken {
                Some(a) => {
                    if contains_u32(candidates, a) {
                        let mut p: usize = 0;
                        while p < list.len()
                            invariant
                                p <= list@.len(),
                                forall|t: int| 0 <= t < p ==> list@[t].0 != a,
                            ensures
                                p <= list@.len(),
                                forall|t: int| 0 <= t < p ==> list@[t].0 != a,
                                p < list@.len() ==> list@[p as int].0 == a,
                            decreases list@.len() - p,
                        {
                            if list[p].0 == a {
                                break;
                            }
                            p = p + 1;
                        }
                        let ghost l0 = list@;
                        if p < list.len() {
                            let c = list[p].1;
                            list.set(p, (a, c + 1));
                            proof {
                                let m1 = m0.insert(a, m0[a] + 1);
                                assert(action_tally(h1, current@, candidates@) == m1);
                                assert forall|a2: u32| m1.contains_key(a2) implies exists|i: int| 0 <= i < list@.len() && #[trigger] list@[i].0 == a2 by {
                                    let i = choose|i: int| 0 <= i < l0.len() && #[trigger] l0[i].0 == a2;
                                    assert(list@[i].0 == a2);
                                }
                            }
                        } else {
                            list.push((a, 1));
                            proof {
                                assert(!m0.contains_key(a)) by {
                                    if m0.contains_key(a) {
                                        let i = choose|i: int| 0 <= i < l0.len() && #[trigger] l0[i].0 == a;
                                    }
                                }
                                let m1 = m0.insert(a, 1);
                                assert(action_tally(h1, current@, candidates@) == m1);
                                assert forall|a2: u32| m1.contains_key(a2) implies exists|i: int| 0 <= i < list@.len() && #[trigger] list@[i].0 == a2 by {
                                    if a2 == a {
                                        assert(list@[l0.len() as int].0 == a2);
                                    } else {
                                        let i = choose|i: int| 0 <= i < l0.len() && #[trigger] l0[i].0 == a2;
                                        assert(list@[i].0 == a2);
                                    }
                                }
                            }
                        }
                    } else {
                        assert(action_tally(h1, current@, candidates@) == m0);
                    }
                },
                None => {
                    assert(action_tally(h1, current@, candidates@) == m0);
                },
            }
        } else {
            assert(action_tally(h1, current@, candidates@) == m0);
        }
        k = k + 1;
    }
    assert(history@.take(history@.len() as int) =~= history@);
    if seen {
        Some(list)
    } else {
        None
    }
}

/// Whether the self-model records at `tick` (one step every `coarsen_factor` ticks).
pub fn records_at(tick: u64, coarsen_factor: u64) -> (r: bool)
    requires
        coarsen_factor > 0,
    ensures
        r == (tick % coarsen_factor == 0),
{
    tick % coarsen_factor == 0
}

} // verus!
