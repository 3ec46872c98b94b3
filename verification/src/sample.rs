//! Drawing distinct indices from random offsets.
use vstd::prelude::*;

verus! {

/// `s` with positions `i` and `j` exchanged.
pub open spec fn swapped(s: Seq<usize>, i: int, j: int) -> Seq<usize> {
    s.update(i, s[j]).update(j, s[i])
}

/// The indices `0..n` after the first `offsets.len()` steps of a
/// Fisher–Yates shuffle: step `k` exchanges position `k` with position
/// `k + offsets[k]`.
pub open spec fn shuffled(n: nat, offsets: Seq<usize>) -> Seq<usize>
    decreases offsets.len(),
{
    if offsets.len() == 0 {
        Seq::new(n, |k: int| k as usize)
    } else {
        let k = offsets.len() - 1;
        swapped(shuffled(n, offsets.drop_last()), k, k + offsets[k])
    }
}

/// Whether every step's offset stays within the positions not yet fixed.
pub open spec fn offsets_fit(n: nat, offsets: Seq<usize>) -> bool {
    &&& offsets.len() <= n
    &&& forall|k: int| 0 <= k < offsets.len() ==> #[trigger] offsets[k] < n - k
}

/// A shuffle step keeps `0..n` a permutation: as long and with every index
/// below `n`, no index twice.
proof fn lemma_shuffled_permutes(n: nat, offsets: Seq<usize>)
    requires
        n <= usize::MAX,
        offsets_fit(n, offsets),
    ensures
        shuffled(n, offsets).len() == n,
        shuffled(n, offsets).no_duplicates(),
        forall|k: int| 0 <= k < n ==> #[trigger] shuffled(n, offsets)[k] < n,
    decreases offsets.len(),
{
    if offsets.len() > 0 {
        let pre = offsets.drop_last();
        assert(offsets_fit(n, pre)) by {
            assert forall|k: int| 0 <= k < pre.len() implies #[trigger] pre[k] < n - k by {
                assert(pre[k] == offsets[k]);
            }
        }
        lemma_shuffled_permutes(n, pre);
        let k = offsets.len() - 1;
        assert(offsets[k] < n - k);
    }
}

/// The first `offsets.len()` indices of a partial Fisher–Yates shuffle of
/// `0..n`, step `k` exchanging position `k` with `k + offsets[k]`: distinct
/// indices below `n`, as many as there are offsets. With uniformly drawn
/// offsets this is a uniform draw without replacement.
pub fn pick_distinct(n: usize, offsets: &[usize]) -> (r: Vec<usize>)
    requires
        offsets_fit(n as nat, offsets@),
    ensures
        r@ == shuffled(n as nat, offsets@).take(offsets@.len() as int),
        r@.len() == offsets@.len(),
        r@.no_duplicates(),
        forall|k: int| 0 <= k < r@.len() ==> #[trigger] r@[k] < n,
{
    let mut indices: Vec<usize> = Vec::new();
    let mut m: usize = 0;
    while m < n
        invariant
            m <= n,
            indices@ == Seq::new(m as nat, |k: int| k as usize),
        decreases n - m,
    {
        indices.push(m);
        m = m + 1;
        assert(indices@ =~= Seq::new(m as nat, |k: int| k as usize));
    }
    assert(offsets@.take(0) =~= Seq::<usize>::empty());
    let mut i: usize = 0;
    while i < offsets.len()
        invariant
            offsets_fit(n as nat, offsets@),
            i <= offsets@.len(),
            indices@ == shuffled(n as nat, offsets@.take(i as int)),
        decreases offsets@.len() - i,
    {
        proof {
            assert(offsets_fit(n as nat, offsets@.take(i as int))) by {
                assert forall|k: int| 0 <= k < offsets@.take(i as int).len() implies
                    #[trigger] offsets@.take(i as int)[k] < n - k by {
                    assert(offsets@.take(i as int)[k] == offsets@[k]);
                }
            }
            lemma_shuffled_permutes(n as nat, offsets@.take(i as int));
            assert(offsets@[i as int] < n - i);
        }
        let j = i + offsets[i];
        let a = indices[i];
        let b = indices[j];
        indices.set(i, b);
        indices.set(j, a);
        proof {
            assert(offsets@.take(i + 1).drop_last() =~= offsets@.take(i as int));
            assert(offsets@.take(i + 1)[i as int] == offsets@[i as int]);
        }
        i = i + 1;
    }
    assert(offsets@.take(offsets@.len() as int) =~= offsets@);
    proof {
        lemma_shuffled_permutes(n as nat, offsets@);
    }
    let mut r: Vec<usize> = Vec::new();
    let mut k: usize = 0;
    while k < offsets.len()
        invariant
            k <= offsets@.len(),
            offsets@.len() <= n,
            indices@ == shuffled(n as nat, offsets@),
            indices@.len() == n,
            r@ == indices@.take(k as int),
        decreases offsets@.len() - k,
    {
        r.push(indices[k]);
        k = k + 1;
        assert(r@ =~= indices@.take(k as int));
    }
    proof {
        let s = shuffled(n as nat, offsets@);
        assert forall|x: int, y: int| 0 <= x < r@.len() && 0 <= y < r@.len() && x != y implies r@[x] != r@[y] by {
            assert(r@[x] == s[x] && r@[y] == s[y]);
        }
        assert forall|x: int| 0 <= x < r@.len() implies #[trigger] r@[x] < n by {
            assert(r@[x] == s[x]);
        }
    }
    r
}

} // verus!
