use gene_core::pattern::extractor::{compute_pattern_hash, sort_signal_ids};
use gene_core::pattern::index::PatternIndex;
use gene_core::pattern::record::{set_overlap, PatternRecord, TemporalShape};
use gene_core::signal::types::SignalId;
use std::collections::hash_map::DefaultHasher;
use std::collections::HashSet;
use std::hash::{Hash, Hasher};

fn ids(v: &[u32]) -> Vec<SignalId> {
    v.iter().map(|&x| SignalId(x)).collect()
}

#[test]
fn overlap_counts_distinct_ids() {
    assert_eq!(set_overlap(&ids(&[1, 2, 2, 3]), &ids(&[2, 3, 4])), (2, 4));
    assert_eq!(set_overlap(&ids(&[]), &ids(&[])), (0, 0));
    assert_eq!(set_overlap(&ids(&[5]), &ids(&[])), (0, 1));
}

#[test]
fn merge_updates_record() {
    let mut r = PatternRecord::new(9, ids(&[1, 2]), 3);
    assert_eq!(r.frequency, 1);
    r.merge_observation(&[(1, TemporalShape::Rising), (1, TemporalShape::Falling)], Some(4), 10);
    r.merge_observation(&[(2, TemporalShape::Plateau)], Some(4), 11);
    assert_eq!(r.frequency, 3);
    assert_eq!(r.first_seen, 3);
    assert_eq!(r.last_seen, 11);
    assert_eq!(r.shapes.get(&1), Some(&TemporalShape::Falling));
    assert_eq!(r.shapes.get(&2), Some(&TemporalShape::Plateau));
    assert_eq!(r.co_actions.get(&4), Some(&2));
    let other = PatternRecord::new(8, ids(&[2, 3]), 0);
    assert_eq!(r.similarity(&other), (1, 3));
    assert_eq!(r.similarity_to_live(&ids(&[1, 2])), (2, 2));
}

#[test]
fn integrate_exact_fuzzy_and_new() {
    let mut idx = PatternIndex::new();
    let a = idx.integrate(100, ids(&[1, 2, 3, 4]), vec![(1, TemporalShape::Rising)], None, 1);
    assert_eq!(a, 100);
    // exact id merges
    let b = idx.integrate(100, ids(&[7]), vec![], Some(3), 2);
    assert_eq!(b, 100);
    assert_eq!(idx.get(100).unwrap().frequency, 2);
    assert_eq!(idx.get(100).unwrap().co_actions.get(&3), Some(&1));
    // 3 of 4 signals shared: similarity 0.75 merges into 100
    let c = idx.integrate(200, ids(&[1, 2, 3]), vec![], None, 3);
    assert_eq!(c, 100);
    assert_eq!(idx.len(), 1);
    assert_eq!(idx.get(100).unwrap().last_seen, 3);
    // 2 of 4: a new record
    let d = idx.integrate(300, ids(&[1, 2, 9, 8]), vec![], Some(5), 4);
    assert_eq!(d, 300);
    assert_eq!(idx.len(), 2);
    let rec = idx.get(300).unwrap();
    assert_eq!(rec.frequency, 1);
    assert_eq!(rec.co_actions.get(&5), Some(&1));
    assert!(idx.get(200).is_none());
}

#[test]
fn integrate_picks_most_similar() {
    let range = |a: u32, b: u32| (a..=b).map(SignalId).collect::<Vec<_>>();
    let mut idx = PatternIndex::new();
    idx.integrate(1, range(1, 20), vec![], None, 0);
    // 16 of 24 shared with record 1: below three quarters, so a new record
    assert_eq!(idx.integrate(3, range(5, 24), vec![], None, 0), 3);
    // against 4..=22: record 1 has 17/22, record 3 has 18/21
    let r = idx.integrate(4, range(4, 22), vec![], None, 9);
    assert_eq!(r, 3);
    assert_eq!(idx.get(3).unwrap().frequency, 2);
    assert_eq!(idx.get(1).unwrap().frequency, 1);
    assert!(idx.get(4).is_none());
}

#[test]
fn salient_needs_five_observations() {
    let mut idx = PatternIndex::new();
    for t in 0..5 {
        idx.integrate(1, ids(&[1, 2]), vec![], None, t);
    }
    for t in 0..4 {
        idx.integrate(2, ids(&[8, 9]), vec![], None, t);
    }
    let s = idx.salient();
    assert_eq!(s.len(), 1);
    assert_eq!(s[0].id, 1);
}

#[test]
fn find_similar_filters_and_sorts() {
    let mut idx = PatternIndex::new();
    idx.integrate(1, ids(&[1, 2, 3, 4]), vec![], None, 0);
    idx.integrate(2, ids(&[1, 2]), vec![], None, 0);
    idx.integrate(3, ids(&[7, 8]), vec![], None, 0);
    let hits = idx.find_similar(&ids(&[1, 2]), 2, 5);
    // record 2: 2/2, record 1: 2/4, record 3: 0/4 (below 0.4)
    assert_eq!(hits, vec![(2, 2, 2), (1, 2, 4)]);
    let all = idx.find_similar(&ids(&[1, 2]), 0, 1);
    assert_eq!(all.len(), 3);
    assert_eq!(all[2].0, 3);
}

#[test]
fn prune_skips_protected() {
    let mut idx = PatternIndex::new();
    idx.integrate(1, ids(&[1, 2]), vec![], None, 0);
    idx.integrate(2, ids(&[3, 4]), vec![], None, 0);
    idx.integrate(3, ids(&[5, 6]), vec![], None, 90);
    let mut protected = HashSet::new();
    protected.insert(2u64);
    let n = idx.prune_stale(100, 50, &protected);
    assert_eq!(n, 1);
    assert!(idx.get(1).is_none());
    assert!(idx.get(2).is_some());
    assert!(idx.get(3).is_some());
    assert_eq!(idx.all().len(), 2);
}

#[test]
fn pattern_hash_matches_hashing_numbers() {
    let entries = [(7u32, 3u32), (12, 0)];
    let mut h = DefaultHasher::new();
    for (id, bucket) in entries.iter() {
        id.hash(&mut h);
        bucket.hash(&mut h);
    }
    assert_eq!(compute_pattern_hash(&entries), h.finish());
    assert_ne!(compute_pattern_hash(&entries), compute_pattern_hash(&[(7, 3)]));
    assert_eq!(compute_pattern_hash(&[]), DefaultHasher::new().finish());
}

#[test]
fn signal_set_sorted() {
    assert_eq!(sort_signal_ids(&ids(&[5, 1, 3, 1])), ids(&[1, 1, 3, 5]));
    assert_eq!(sort_signal_ids(&ids(&[])), ids(&[]));
}

#[test]
fn index_restores_from_saved_records() {
    let mut idx = PatternIndex::new();
    idx.integrate(1, ids(&[1, 2]), vec![], None, 0);
    idx.integrate(2, ids(&[3, 4]), vec![], None, 0);
    let saved = idx.all().clone();
    let r = PatternIndex::restore(saved.clone()).unwrap();
    assert_eq!(r.len(), 2);
    assert_eq!(r.get(2).unwrap().signal_set, ids(&[3, 4]));
    let mut dup = saved.clone();
    dup[1].id = 1;
    assert!(PatternIndex::restore(dup).is_none());
}
