//! Pattern extraction: the structural identity of an extracted pattern.
use vstd::prelude::*;
use std::collections::hash_map::DefaultHasher;
use std::hash::Hasher;
use vstd::bytes::spec_u32_to_le_bytes;
use vstd::seq_lib::{to_multiset_build, to_multiset_insert};
use vstd::std_specs::hash::DefaultHasherAdditionalSpecFns;
use crate::signal::types::SignalId;

verus! {

/// Snapshots kept in the rolling window.
pub const WINDOW_SIZE: usize = 8;
/// Fewest deviating signals that make a pattern.
pub const MIN_PATTERN_SIGNALS: usize = 2;

/// Whether `s` is in ascending order of signal number.
pub open spec fn ids_ascending(s: Seq<SignalId>) -> bool {
    forall|i: int, j: int| 0 <= i < j < s.len() ==> s[i].0 <= s[j].0
}

/// `b` is the four bytes of `x` in one of the two byte orders a machine can
/// have: little-endian, or big-endian (the same bytes reversed).
pub open spec fn bytes_of_either_order(b: Seq<u8>, x: u32) -> bool {
    b == spec_u32_to_le_bytes(x) || b == spec_u32_to_le_bytes(x).reverse()
}

/// `w` is the sequence of writes that make a pattern's hash: for each
/// (signal number, magnitude bucket) entry in order, the number and then the
/// bucket, each as its four bytes in the machine's native order.
pub open spec fn pattern_hash_writes(entries: Seq<(u32, u32)>, w: Seq<Seq<u8>>) -> bool {
    &&& w.len() == 2 * entries.len()
    &&& forall|k: int| 0 <= k < entries.len() ==> {
        &&& bytes_of_either_order(#[trigger] w[2 * k], entries[k].0)
        &&& bytes_of_either_order(w[2 * k + 1], entries[k].1)
    }
}

/// The four bytes of `x` in the machine's native byte order.
///
/// Trusted: calls `u32::to_ne_bytes`, which std documents as the memory
/// representation of `x` in the target's native byte order: its
/// little-endian or its big-endian bytes. Which of the two depends on the
/// machine, so only that much is stated.
#[verifier::external_body]
fn native_bytes(x: u32) -> (r: [u8; 4])
    ensures
        bytes_of_either_order(r@, x),
{
    x.to_ne_bytes()
}

/// Structural hash of a pattern: the default hasher fed, for each signal in
/// order, its number and its magnitude bucket (tenths of deviation), each
/// written as `u32` hashing writes it, in native byte order.
pub fn compute_pattern_hash(entries: &[(u32, u32)]) -> (h: u64)
    ensures
        exists|w: Seq<Seq<u8>>| #[trigger] pattern_hash_writes(entries@, w) && h == DefaultHasher::spec_finish(w),
{
    let mut hasher = DefaultHasher::new();
    let mut i: usize = 0;
    while i < entries.len()
        invariant
            i <= entries@.len(),
            pattern_hash_writes(entries@.take(i as int), hasher@),
        decreases entries@.len() - i,
    {
        let (id, bucket) = entries[i];
        let ghost w0 = hasher@;
        let a = native_bytes(id);
        hasher.write(vstd::array::array_as_slice(&a));
        let b = native_bytes(bucket);
        hasher.write(vstd::array::array_as_slice(&b));
        proof {
            let e = entries@.take(i + 1);
            let w = hasher@;
            assert(w == w0.push(a@).push(b@));
            assert forall|k: int| 0 <= k < e.len() implies {
                &&& bytes_of_either_order(#[trigger] w[2 * k], e[k].0)
                &&& bytes_of_either_order(w[2 * k + 1], e[k].1)
            } by {
                if k < i {
                    assert(e[k] == entries@.take(i as int)[k]);
                    assert(w[2 * k] == w0[2 * k]);
                    assert(w[2 * k + 1] == w0[2 * k + 1]);
                } else {
                    assert(e[k] == (id, bucket));
                    assert(w[2 * k] == a@);
                    assert(w[2 * k + 1] == b@);
                }
            }
        }
        i = i + 1;
    }
    assert(entries@.take(entries@.len() as int) =~= entries@);
    hasher.finish()
}

/// Put `x` into the ascending `v`, after every id with a number not above it.
fn insert_ascending(v: &mut Vec<SignalId>, x: SignalId)
    requires
        ids_ascending(old(v)@),
    ensures
        ids_ascending(final(v)@),
        final(v)@.to_multiset() == old(v)@.to_multiset().insert(x),
{
    let ghost s = v@;
    let mut p: usize = 0;
    while p < v.len()
        invariant
            v@ == s,
            p <= s.len(),
            forall|q: int| 0 <= q < p ==> s[q].0 <= x.0,
        ensures
            v@ == s,
            p <= s.len(),
            forall|q: int| 0 <= q < p ==> s[q].0 <= x.0,
            p < s.len() ==> s[p as int].0 > x.0,
        decreases s.len() - p,
    {
        if v[p].0 > x.0 {
            break;
        }
        p = p + 1;
    }
    v.insert(p, x);
    proof {
        to_multiset_insert(s, p as int, x);
        let t = v@;
        assert forall|i: int, j: int| 0 <= i < j < t.len() implies t[i].0 <= t[j].0 by {
            if j < p {
            } else if i < p && j == p {
            } else if i < p {
                assert(t[j] == s[j - 1]);
            } else if i == p {
                assert(t[j] == s[j - 1]);
                assert(s[p as int].0 <= s[j - 1].0);
            } else {
                assert(t[i] == s[i - 1] && t[j] == s[j - 1]);
            }
        }
    }
}

/// The signal set in ascending order of signal number (a stable hash needs
/// one order).
pub fn sort_signal_ids(ids: &[SignalId]) -> (r: Vec<SignalId>)
    ensures
        ids_ascending(r@),
        r@.to_multiset() == ids@.to_multiset(),
{
    let mut r: Vec<SignalId> = Vec::new();
    let mut k: usize = 0;
    assert(ids@.take(0) =~= r@);
    while k < ids.len()
        invariant
            k <= ids@.len(),
            ids_ascending(r@),
            r@.to_multiset() == ids@.take(k as int).to_multiset(),
        decreases ids@.len() - k,
    {
        let x = ids[k];
        proof {
            assert(ids@.take(k + 1) =~= ids@.take(k as int).push(x));
            to_multiset_build(ids@.take(k as int), x);
        }
        insert_ascending(&mut r, x);
        k = k + 1;
    }
    assert(ids@.take(ids@.len() as int) =~= ids@);
    r
}

} // verus!
