//! Bounded histories: the ways the agent keeps its rolling logs short.
use vstd::prelude::*;

verus! {

/// `s` with `x` appended, then the oldest entry dropped if more than `cap` remain.
pub open spec fn windowed<T>(s: Seq<T>, x: T, cap: nat) -> Seq<T> {
    if s.len() + 1 > cap { s.push(x).drop_first() } else { s.push(x) }
}

/// `s` with `x` appended; when that makes more than `max` entries, the oldest
/// `max / 4` are dropped.
pub open spec fn trimmed<T>(s: Seq<T>, x: T, max: nat) -> Seq<T> {
    if s.len() + 1 > max { s.push(x).skip((max / 4) as int) } else { s.push(x) }
}

/// The last `n` entries of `s` (all of them when there are at most `n`).
pub open spec fn last_n<T>(s: Seq<T>, n: nat) -> Seq<T> {
    if s.len() > n { s.skip(s.len() - n) } else { s }
}

/// `x` put in front of `s`, keeping the first `cap` entries.
pub open spec fn fronted<T>(s: Seq<T>, x: T, cap: nat) -> Seq<T> {
    let p = seq![x] + s;
    if p.len() > cap { p.take(cap as int) } else { p }
}

/// Append `x` to a rolling window that holds at most `cap` entries (the
/// oldest entry leaves when the window overflows).
pub fn push_window<T>(v: &mut Vec<T>, x: T, cap: usize)
    ensures
        final(v)@ == windowed(old(v)@, x, cap as nat),
{
    v.push(x);
    if v.len() > cap {
        v.remove(0);
        assert(v@ =~= windowed(old(v)@, x, cap as nat));
    }
}

/// Append `x`; once more than `max` entries are held, drop the oldest
/// quarter of `max` in one go.
pub fn push_trimmed<T>(v: &mut Vec<T>, x: T, max: usize)
    ensures
        final(v)@ == trimmed(old(v)@, x, max as nat),
{
    v.push(x);
    if v.len() > max {
        let tail = v.split_off(max / 4);
        *v = tail;
        assert(v@ =~= trimmed(old(v)@, x, max as nat));
    }
}

/// Keep only the last `n` entries.
pub fn keep_last<T>(v: &mut Vec<T>, n: usize)
    ensures
        final(v)@ == last_n(old(v)@, n as nat),
{
    if v.len() > n {
        let k = v.len() - n;
        let tail = v.split_off(k);
        *v = tail;
        assert(v@ =~= last_n(old(v)@, n as nat));
    }
}

/// Put `x` at the front (newest first) and keep at most `cap` entries.
pub fn push_front_capped<T>(v: &mut Vec<T>, x: T, cap: usize)
    ensures
        final(v)@ == fronted(old(v)@, x, cap as nat),
{
    v.insert(0, x);
    assert(v@ =~= seq![x] + old(v)@);
    if v.len() > cap {
        v.truncate(cap);
        assert(v@ =~= fronted(old(v)@, x, cap as nat));
    }
}

/// A rolling window never holds more than its capacity, and keeps the
/// newest entry.
pub proof fn law_window_bounded<T>(s: Seq<T>, x: T, cap: nat)
    requires
        s.len() <= cap,
        cap > 0,
    ensures
        windowed(s, x, cap).len() <= cap,
        windowed(s, x, cap).last() == x,
{
}

/// A trimmed history never grows beyond its limit (for limits of at least
/// four, so that a trim drops something), and keeps the newest entry.
pub proof fn law_trimmed_bounded<T>(s: Seq<T>, x: T, max: nat)
    requires
        s.len() <= max,
        max >= 4,
    ensures
        trimmed(s, x, max).len() <= max,
        trimmed(s, x, max).last() == x,
{
    if s.len() + 1 > max {
        assert(trimmed(s, x, max) == s.push(x).skip((max / 4) as int));
    }
}

} // verus!
