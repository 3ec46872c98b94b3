use gene_core::pattern::index::PatternIndex;
use gene_core::symbol::grounder::{coin_salient, composite_fires};
use gene_core::signal::types::SignalId;
use gene_core::symbol::composition::CompositionEngine;
use gene_core::symbol::ledger::{Symbol, SymbolLedger};

#[test]
fn coin_assigns_sequential_tokens() {
    let mut l = SymbolLedger::new();
    let a = l.coin(111, 5);
    let b = l.coin(222, 6);
    assert_eq!(a, 0);
    assert_eq!(b, 1);
    assert_eq!(l.len(), 2);
    assert_eq!(l.get(0).unwrap().token, "\u{3a6}_0000");
    assert_eq!(l.get(1).unwrap().token, "\u{3a6}_0001");
    assert_eq!(l.get(1).unwrap().pattern_id, 222);
    assert_eq!(l.get(1).unwrap().coined_at_tick, 6);
    assert!(!l.get(0).unwrap().is_composite);
}

#[test]
fn coin_is_idempotent_per_pattern() {
    let mut l = SymbolLedger::new();
    let a = l.coin_with_cluster(42, vec![SignalId(1), SignalId(2)], 1);
    let b = l.coin_with_cluster(42, vec![SignalId(9)], 2);
    assert_eq!(a, b);
    assert_eq!(l.len(), 1);
    assert_eq!(l.get(a).unwrap().signal_cluster, vec![SignalId(1), SignalId(2)]);
    assert_eq!(l.by_pattern(42), Some(a));
    assert_eq!(l.by_pattern(43), None);
}

#[test]
fn composite_tokens_and_fields() {
    let mut l = SymbolLedger::new();
    l.coin(1, 0);
    l.coin(2, 0);
    let c = l.coin_composite(vec![0, 1], vec![SignalId(3)], 7);
    assert_eq!(c, 2);
    let s = l.get(c).unwrap();
    assert_eq!(s.token, "\u{3a6}_C_0002");
    assert!(s.is_composite);
    assert_eq!(s.pattern_id, 0);
    assert_eq!(s.parents, vec![0, 1]);
    assert_eq!(l.composites().len(), 1);
    assert_eq!(l.composites()[0].index, 2);
}

#[test]
fn wide_index_is_not_truncated() {
    let s = Symbol::new(12345, 9, 0);
    assert_eq!(s.token, "\u{3a6}_12345");
}

#[test]
fn prune_removes_only_stale_composites() {
    let mut l = SymbolLedger::new();
    l.coin(1, 0);
    l.coin(2, 0);
    let old_c = l.coin_composite(vec![0, 1], vec![], 10);
    let young_c = l.coin_composite(vec![0, 1], vec![], 900);
    let pruned = l.prune_composites(1000, 500);
    assert_eq!(pruned, vec![old_c]);
    assert!(l.get(old_c).is_none());
    assert!(l.get(young_c).is_some());
    assert!(l.get(0).is_some());
    assert!(l.get(1).is_some());
    // basic symbols survive however old they are
    let pruned = l.prune_composites(10_000_000, 0);
    assert_eq!(pruned, vec![young_c]);
    assert_eq!(l.len(), 2);
}

#[test]
fn activation_refreshes_composites() {
    let mut l = SymbolLedger::new();
    let c = l.coin_composite(vec![], vec![], 0);
    assert!(l.activate(c, 800));
    assert!(!l.activate(99, 800));
    assert_eq!(l.get(c).unwrap().activation_count, 1);
    assert_eq!(l.get(c).unwrap().last_activated_tick, 800);
    let pruned = l.prune_composites(1000, 500);
    assert!(pruned.is_empty());
}

#[test]
fn annotate_adds_each_note_once() {
    let mut l = SymbolLedger::new();
    let a = l.coin(5, 0);
    l.annotate(a, "calm".to_string());
    l.annotate(a, "calm".to_string());
    l.annotate(a, "busy".to_string());
    l.annotate(77, "ignored".to_string());
    assert_eq!(l.get(a).unwrap().directive_notes, vec!["calm".to_string(), "busy".to_string()]);
}

fn three_basic() -> SymbolLedger {
    let mut l = SymbolLedger::new();
    l.coin_with_cluster(10, vec![SignalId(1), SignalId(2), SignalId(3)], 0);
    l.coin_with_cluster(20, vec![SignalId(2), SignalId(3), SignalId(4)], 0);
    l.coin_with_cluster(30, vec![SignalId(9)], 0);
    l
}

#[test]
fn composition_after_threshold() {
    let mut l = three_basic();
    let mut e = CompositionEngine::new(2);
    e.observe(&[0, 1], &l);
    assert!(e.maybe_compose(&mut l, 1).is_empty());
    e.observe(&[1, 0], &l);
    let coined = e.maybe_compose(&mut l, 2);
    assert_eq!(coined, vec![3]);
    let c = l.get(3).unwrap();
    assert!(c.is_composite);
    assert_eq!(c.signal_cluster, vec![SignalId(2), SignalId(3)]);
    assert_eq!(c.coined_at_tick, 2);
    // the composed pair is never counted or composed again
    e.observe(&[0, 1], &l);
    e.observe(&[0, 1], &l);
    assert!(e.maybe_compose(&mut l, 3).is_empty());
}

#[test]
fn composites_do_not_become_parents() {
    let mut l = three_basic();
    let c = l.coin_composite(vec![0, 1], vec![], 0);
    let mut e = CompositionEngine::new(1);
    e.observe(&[c, 2], &l);
    assert!(e.maybe_compose(&mut l, 1).is_empty());
}

#[test]
fn purge_forgets_counts() {
    let mut l = three_basic();
    let mut e = CompositionEngine::new(2);
    e.observe(&[0, 1, 2], &l);
    e.purge_symbols(&[1]);
    e.observe(&[0, 1, 2], &l);
    let coined = e.maybe_compose(&mut l, 5);
    // only (0, 2) reached two co-activations
    assert_eq!(coined, vec![3]);
    assert_eq!(l.get(3).unwrap().parents, vec![0, 2]);
}

#[test]
fn seeding_prevents_recoining() {
    let mut l = three_basic();
    l.coin_composite(vec![0, 1], vec![], 0);
    let mut e = CompositionEngine::new(1);
    e.seed_from_ledger(&l);
    e.observe(&[0, 1], &l);
    assert!(e.maybe_compose(&mut l, 1).is_empty());
    assert_eq!(CompositionEngine::MAX_COMPOSITES, 200);
}

#[test]
fn ledger_restores_from_saved_symbols() {
    let mut l = SymbolLedger::new();
    l.coin(10, 1);
    l.coin(20, 2);
    l.coin_composite(vec![0, 1], vec![], 3);
    let saved: Vec<Symbol> = l.all().clone();
    let r = SymbolLedger::restore(saved.clone(), 3).unwrap();
    assert_eq!(r.len(), 3);
    assert_eq!(r.by_pattern(20), Some(1));
    let mut r2 = SymbolLedger::restore(saved.clone(), 3).unwrap();
    assert_eq!(r2.coin(30, 4), 3);
    // an index at or above the next index is refused
    assert!(SymbolLedger::restore(saved.clone(), 2).is_none());
    // out of order is refused
    let mut shuffled = saved.clone();
    shuffled.swap(0, 1);
    assert!(SymbolLedger::restore(shuffled, 3).is_none());
    // two basic symbols for one pattern are refused
    let mut dup = saved.clone();
    dup[1].pattern_id = 10;
    assert!(SymbolLedger::restore(dup, 3).is_none());
}

#[test]
fn salient_patterns_get_symbols() {


    let mut idx = PatternIndex::new();
    for t in 0..5 {
        idx.integrate(100, vec![SignalId(1), SignalId(2)], vec![], None, t);
    }
    idx.integrate(200, vec![SignalId(8), SignalId(9)], vec![], None, 0);
    let mut l = SymbolLedger::new();
    coin_salient(&idx, &mut l, 42);
    assert_eq!(l.len(), 1);
    let s = l.get(l.by_pattern(100).unwrap()).unwrap();
    assert_eq!(s.signal_cluster, vec![SignalId(1), SignalId(2)]);
    assert_eq!(s.coined_at_tick, 42);
    assert_eq!(l.by_pattern(200), None);
    // a second pass coins nothing new
    coin_salient(&idx, &mut l, 43);
    assert_eq!(l.len(), 1);
}

#[test]
fn composites_fire_when_all_parents_active() {

    let mut l = three_basic();
    let c = l.coin_composite(vec![0, 1], vec![], 0);
    let empty = l.coin_composite(vec![], vec![], 0);
    let dangling = l.coin_composite(vec![0, 77], vec![], 0);
    assert!(composite_fires(&l, c, &[0, 1, 2]));
    assert!(!composite_fires(&l, c, &[0, 2]));
    assert!(!composite_fires(&l, empty, &[0, 1]));
    assert!(!composite_fires(&l, dangling, &[0, 77]));
    assert!(!composite_fires(&l, 0, &[0, 1]));
    assert!(!composite_fires(&l, 999, &[0, 1]));
}

#[test]
fn composition_never_passes_the_cap() {
    let mut l = three_basic();
    for t in 0..199 {
        l.coin_composite(vec![], vec![], t);
    }
    assert_eq!(l.composites().len(), 199);
    let mut e = CompositionEngine::new(1);
    e.observe(&[0, 1, 2], &l);
    assert_eq!(e.ready_count(), 3);
    let coined = e.maybe_compose(&mut l, 500);
    assert_eq!(coined.len(), 1);
    assert_eq!(l.composites().len(), 200);
    assert_eq!(e.ready_count(), 2);
    assert!(e.maybe_compose(&mut l, 501).is_empty());
    assert_eq!(l.composites().len(), 200);
}

#[test]
fn fresh_engine_coins_nothing() {
    let mut l = three_basic();
    let mut e = CompositionEngine::new(2);
    assert_eq!(e.ready_count(), 0);
    assert!(e.maybe_compose(&mut l, 1).is_empty());
    assert_eq!(l.len(), 3);
}

#[test]
fn purged_pair_composes_again() {
    let mut l = three_basic();
    let mut e = CompositionEngine::new(2);
    e.observe(&[0, 1], &l);
    e.observe(&[0, 1], &l);
    assert_eq!(e.maybe_compose(&mut l, 4), vec![3]);
    let c = l.get(3).unwrap();
    assert_eq!(c.parents, vec![0, 1]);
    assert_eq!(c.signal_cluster, vec![SignalId(2), SignalId(3)]);
    assert_eq!(c.coined_at_tick, 4);
    e.purge_symbols(&[0]);
    e.purge_symbols(&[0]);
    e.observe(&[0, 1], &l);
    assert!(e.maybe_compose(&mut l, 5).is_empty());
    e.observe(&[1, 0], &l);
    let again = e.maybe_compose(&mut l, 6);
    assert_eq!(again, vec![4]);
    assert_eq!(l.get(4).unwrap().parents, vec![0, 1]);
}
