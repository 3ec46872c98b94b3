//! Expression records: the well-known signal names used in them and the
//! identity alignment they report.
use vstd::prelude::*;
use crate::signal::types::{SignalId, signal_label};

verus! {

/// The well-known name of signal `id` in expression records; any other id
/// gets its label (`s_` and four zero-padded digits).
pub open spec fn expression_signal_name(id: u32) -> Seq<char> {
    if id == 0 { "s_continuity"@ }
    else if id == 1 { "s_integrity"@ }
    else if id == 2 { "s_coherence"@ }
    else if id == 3 { "s_memory"@ }
    else if id == 4 { "s_disk"@ }
    else if id == 5 { "s_meta"@ }
    else if id == 6 { "s_drive"@ }
    else if id == 17 { "s_cpu_load"@ }
    else if id == 18 { "s_net_rx"@ }
    else if id == 19 { "s_net_tx"@ }
    else if id == 20 { "s_disk_io"@ }
    else if id == 21 { "s_uptime_cycle"@ }
    else if id == 22 { "s_proc_count"@ }
    else if id == 23 { "s_swap_used"@ }
    else if id == 24 { "s_iowait"@ }
    else if id == 25 { "s_ctx_switches"@ }
    else if id == 26 { "s_tick_rate"@ }
    else if id == 27 { "s_mem_available"@ }
    else if id == 28 { "s_quake_rate"@ }
    else if id == 29 { "s_quake_mag"@ }
    else if id == 30 { "s_quake_depth"@ }
    else if id == 31 { "s_quake_sig"@ }
    else { signal_label(id) }
}

/// Well-known signal names by id.
pub fn signal_name(id: u32) -> (r: String)
    ensures
        r@ == expression_signal_name(id),
{
    match id {
        0 => "s_continuity".to_owned(),
        1 => "s_integrity".to_owned(),
        2 => "s_coherence".to_owned(),
        3 => "s_memory".to_owned(),
        4 => "s_disk".to_owned(),
        5 => "s_meta".to_owned(),
        6 => "s_drive".to_owned(),
        17 => "s_cpu_load".to_owned(),
        18 => "s_net_rx".to_owned(),
        19 => "s_net_tx".to_owned(),
        20 => "s_disk_io".to_owned(),
        21 => "s_uptime_cycle".to_owned(),
        22 => "s_proc_count".to_owned(),
        23 => "s_swap_used".to_owned(),
        24 => "s_iowait".to_owned(),
        25 => "s_ctx_switches".to_owned(),
        26 => "s_tick_rate".to_owned(),
        27 => "s_mem_available".to_owned(),
        28 => "s_quake_rate".to_owned(),
        29 => "s_quake_mag".to_owned(),
        30 => "s_quake_depth".to_owned(),
        31 => "s_quake_sig".to_owned(),
        n => SignalId(n).to_string(),
    }
}

/// How many of `active` occur in `identity`.
pub open spec fn identity_hits(identity: Seq<u32>, active: Seq<u32>) -> nat {
    active.filter(|x: u32| identity.contains(x)).len()
}

fn contains_u32(v: &[u32], x: u32) -> (r: bool)
    ensures
        r == v@.contains(x),
{
    let mut i: usize = 0;
    while i < v.len()
        invariant
            i <= v@.len(),
            forall|t: int| 0 <= t < i ==> v@[t] != x,
        decreases v@.len() - i,
    {
        if v[i] == x {
            return true;
        }
        i = i + 1;
    }
    false
}

/// The identity alignment of the active symbols, as a fraction: how many
/// active symbols belong to the identity signature, over the signature's
/// length. Zero over one when either list is empty.
pub fn identity_alignment(identity: &[u32], active: &[u32]) -> (r: (usize, usize))
    ensures
        identity@.len() == 0 || active@.len() == 0 ==> r == (0usize, 1usize),
        identity@.len() > 0 && active@.len() > 0 ==> r.0 == identity_hits(identity@, active@) && r.1
            == identity@.len(),
{
    if identity.len() == 0 || active.len() == 0 {
        return (0, 1);
    }
    let ghost pred = |x: u32| identity@.contains(x);
    let mut count: usize = 0;
    let mut k: usize = 0;
    while k < active.len()
        invariant
            k <= active@.len(),
            pred == (|x: u32| identity@.contains(x)),
            count == active@.take(k as int).filter(pred).len(),
            count <= k,
        decreases active@.len() - k,
    {
        proof {
            assert(active@.take(k + 1) =~= active@.take(k as int).push(active@[k as int]));
            active@.take(k as int).lemma_filter_push(active@[k as int], pred);
        }
        if contains_u32(identity, active[k]) {
            count = count + 1;
        }
        k = k + 1;
    }
    assert(active@.take(active@.len() as int) =~= active@);
    (count, identity.len())
}

} // verus!
