//! Which periodic work the tick loop does at a given tick.
use vstd::prelude::*;

verus! {

/// Ticks between re-reads of the persisted actions file.
pub const ACTIONS_RELOAD_INTERVAL: u64 = 100;
/// Ticks between polls of the OS and earthquake sources (and IPC state updates).
pub const POLL_INTERVAL: u64 = 10;
/// Ticks between pattern extraction and composition passes.
pub const PATTERN_INTERVAL: u64 = 4;
/// Ticks between dashboard refreshes.
pub const DASHBOARD_INTERVAL: u64 = 20;
/// Ticks between forgetting passes.
pub const PRUNE_INTERVAL: u64 = 5000;

/// The periodic work due at one tick.
#[derive(Debug, Clone, Copy, PartialEq, Eq, Structural)]
pub struct TickPlan {
    /// The loop ends before doing anything at this tick.
    pub stop: bool,
    pub reload_actions: bool,
    pub poll_sources: bool,
    pub extract_and_compose: bool,
    pub rewrite_directives: bool,
    pub checkpoint: bool,
    pub publish_state: bool,
    pub refresh_dashboard: bool,
    pub prune: bool,
}

/// The plan for `tick`: the loop stops once `max_ticks` (when not 0) is
/// reached; each kind of work runs on the multiples of its interval, the
/// directive rewrite, checkpoint and pruning only after tick 0, the
/// dashboard only when it is shown.
pub open spec fn tick_plan(
    tick: u64,
    max_ticks: u64,
    checkpoint_interval: u64,
    directive_interval: u64,
    dashboard: bool,
) -> TickPlan {
    TickPlan {
        stop: max_ticks > 0 && tick >= max_ticks,
        reload_actions: tick % ACTIONS_RELOAD_INTERVAL == 0,
        poll_sources: tick % POLL_INTERVAL == 0,
        extract_and_compose: tick % PATTERN_INTERVAL == 0,
        rewrite_directives: tick > 0 && tick % directive_interval == 0,
        checkpoint: tick > 0 && tick % checkpoint_interval == 0,
        publish_state: tick % POLL_INTERVAL == 0,
        refresh_dashboard: dashboard && tick % DASHBOARD_INTERVAL == 0,
        prune: tick > 0 && tick % PRUNE_INTERVAL == 0,
    }
}

pub fn plan_tick(
    tick: u64,
    max_ticks: u64,
    checkpoint_interval: u64,
    directive_interval: u64,
    dashboard: bool,
) -> (p: TickPlan)
    requires
        checkpoint_interval > 0,
        directive_interval > 0,
    ensures
        p == tick_plan(tick, max_ticks, checkpoint_interval, directive_interval, dashboard),
{
    TickPlan {
        stop: max_ticks > 0 && tick >= max_ticks,
        reload_actions: tick % ACTIONS_RELOAD_INTERVAL == 0,
        poll_sources: tick % POLL_INTERVAL == 0,
        extract_and_compose: tick % PATTERN_INTERVAL == 0,
        rewrite_directives: tick > 0 && tick % directive_interval == 0,
        checkpoint: tick > 0 && tick % checkpoint_interval == 0,
        publish_state: tick % POLL_INTERVAL == 0,
        refresh_dashboard: dashboard && tick % DASHBOARD_INTERVAL == 0,
        prune: tick > 0 && tick % PRUNE_INTERVAL == 0,
    }
}

/// Each periodic save runs on the multiples of its own interval and on no
/// other tick after 0, whatever the other interval is: the checkpoint every
/// `checkpoint_interval` ticks, the directive rewrite every
/// `directive_interval` ticks. `k` counts whole intervals and `r` is a tick
/// strictly between two multiples.
pub proof fn law_saves_follow_their_intervals(
    k: nat,
    r: nat,
    max_ticks: u64,
    checkpoint_interval: u64,
    directive_interval: u64,
    other: u64,
    dashboard: bool,
)
    requires
        checkpoint_interval > 0,
        directive_interval > 0,
        other > 0,
    ensures
        k >= 1 && k * checkpoint_interval <= u64::MAX ==>
            tick_plan((k * checkpoint_interval) as u64, max_ticks, checkpoint_interval, other, dashboard).checkpoint,
        0 < r < checkpoint_interval && k * checkpoint_interval + r <= u64::MAX ==>
            !tick_plan((k * checkpoint_interval + r) as u64, max_ticks, checkpoint_interval, other, dashboard).checkpoint,
        k >= 1 && k * directive_interval <= u64::MAX ==>
            tick_plan((k * directive_interval) as u64, max_ticks, other, directive_interval, dashboard).rewrite_directives,
        0 < r < directive_interval && k * directive_interval + r <= u64::MAX ==>
            !tick_plan((k * directive_interval + r) as u64, max_ticks, other, directive_interval, dashboard).rewrite_directives,
{
    let c = checkpoint_interval as int;
    let d = directive_interval as int;
    assert((k * c) % c == 0 && (k >= 1 ==> k * c > 0)) by (nonlinear_arith)
        requires c > 0;
    assert(0 < r < c ==> (k * c + r) % c == r) by (nonlinear_arith)
        requires c > 0;
    assert((k * d) % d == 0 && (k >= 1 ==> k * d > 0)) by (nonlinear_arith)
        requires d > 0;
    assert(0 < r < d ==> (k * d + r) % d == r) by (nonlinear_arith)
        requires d > 0;
}

} // verus!
