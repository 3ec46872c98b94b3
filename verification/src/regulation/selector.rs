//! Cooldowns and repetition tracking for action selection.
use vstd::prelude::*;
use std::collections::HashMap;

verus! {

broadcast use vstd::std_specs::hash::group_hash_axioms;

/// Minimum ticks between executions of a system action.
/// Prevents runaway build/write loops.
pub const SYSTEM_ACTION_COOLDOWN: u64 = 2000;

/// Minimum ticks between ANY system action (global rate limit).
pub const SYSTEM_ACTION_GLOBAL_COOLDOWN: u64 = 500;

/// `a - b`, or 0 when `b > a`.
pub open spec fn elapsed(a: u64, b: u64) -> int {
    if a >= b { a - b } else { 0 }
}

/// What the selector needs to know of a candidate action.
#[derive(Clone, Copy, Debug, PartialEq, Eq, Structural)]
pub struct CandidateInfo {
    pub id: u32,
    pub is_system: bool,
    /// Whether applying it would reduce a continuity signal.
    pub harms_continuity: bool,
}

/// The selection state that is not real-valued: the last chosen action and
/// how often it was chosen in a row, and when each action (and any system
/// action) was last executed. The exploration and blending rates are
/// real-valued and kept by the caller.
pub struct ActionSelector {
    last_action: Option<u32>,
    same_action_count: u32,
    repetition_limit: u32,
    /// Per-action: last tick it was executed
    last_executed: HashMap<u32, u64>,
    /// Last tick any system action ran
    last_system_action_tick: u64,
}

impl ActionSelector {
    pub closed spec fn last_action(&self) -> Option<u32> {
        self.last_action
    }

    pub closed spec fn same_count(&self) -> u32 {
        self.same_action_count
    }

    pub closed spec fn limit(&self) -> u32 {
        self.repetition_limit
    }

    pub closed spec fn executed(&self) -> Map<u32, u64> {
        self.last_executed@
    }

    pub closed spec fn last_system_tick(&self) -> u64 {
        self.last_system_action_tick
    }

    /// The tick an action was last executed (0 when never).
    pub open spec fn last_run(&self, id: u32) -> u64 {
        if self.executed().contains_key(id) { self.executed()[id] } else { 0 }
    }

    /// Whether `c` may be chosen at `tick`: it must not harm continuity, and a
    /// system action must be outside both its own cooldown and the global one.
    pub open spec fn eligible(&self, c: CandidateInfo, tick: u64) -> bool {
        !c.harms_continuity && (!c.is_system || (elapsed(tick, self.last_run(c.id)) >= SYSTEM_ACTION_COOLDOWN
            && elapsed(tick, self.last_system_tick()) >= SYSTEM_ACTION_GLOBAL_COOLDOWN))
    }

    pub fn new(repetition_limit: u32) -> (s: ActionSelector)
        ensures
            s.last_action() is None,
            s.same_count() == 0,
            s.limit() == repetition_limit,
            s.executed().is_empty(),
            s.last_system_tick() == 0,
    {
        ActionSelector {
            last_action: None,
            same_action_count: 0,
            repetition_limit,
            last_executed: HashMap::new(),
            last_system_action_tick: 0,
        }
    }

    /// The last chosen action, if any.
    pub fn last_choice(&self) -> (r: Option<u32>)
        ensures
            r == self.last_action(),
    {
        self.last_action
    }

    /// How many times in a row the last action was chosen again.
    pub fn repeat_count(&self) -> (r: u32)
        ensures
            r == self.same_count(),
    {
        self.same_action_count
    }

    /// Whether the same action has been chosen often enough in a row that the
    /// next choice must explore.
    pub fn force_explore(&self) -> (r: bool)
        ensures
            r == (self.same_count() >= self.limit()),
    {
        self.same_action_count >= self.repetition_limit
    }

    /// Whether candidate `c` may be chosen at `current_tick`.
    pub fn is_eligible(&self, c: CandidateInfo, current_tick: u64) -> (r: bool)
        ensures
            r == self.eligible(c, current_tick),
    {
        if c.harms_continuity {
            return false;
        }
        if c.is_system {
            let last = match self.last_executed.get(&c.id) {
                Some(t) => *t,
                None => 0,
            };
            if current_tick.saturating_sub(last) < SYSTEM_ACTION_COOLDOWN {
                return false;
            }
            if current_tick.saturating_sub(self.last_system_action_tick) < SYSTEM_ACTION_GLOBAL_COOLDOWN {
                return false;
            }
        }
        true
    }

    /// The candidates that may be chosen at `current_tick`, in the given order.
    pub fn candidates(&self, actions: &[CandidateInfo], current_tick: u64) -> (r: Vec<CandidateInfo>)
        ensures
            r@ == actions@.filter(|c: CandidateInfo| self.eligible(c, current_tick)),
    {
        let ghost pred = |c: CandidateInfo| self.eligible(c, current_tick);
        let mut r: Vec<CandidateInfo> = Vec::new();
        let mut k: usize = 0;
        while k < actions.len()
            invariant
                k <= actions@.len(),
                pred == (|c: CandidateInfo| self.eligible(c, current_tick)),
                r@ == actions@.take(k as int).filter(pred),
            decreases actions@.len() - k,
        {
            let c = actions[k];
            proof {
                assert(actions@.take(k + 1) =~= actions@.take(k as int).push(c));
                actions@.take(k as int).lemma_filter_push(c, pred);
            }
            if self.is_eligible(c, current_tick) {
                r.push(c);
            }
            k = k + 1;
        }
        assert(actions@.take(actions@.len() as int) =~= actions@);
        r
    }

    /// Records that `chosen` was executed at `tick`: a repeat of the last
    /// choice grows the repetition count, a different choice resets it and
    /// becomes the last choice; the action's last-execution tick becomes
    /// `tick`, and so does the last system-action tick when it is a system
    /// action.
    pub fn record_execution(&mut self, chosen: u32, tick: u64, is_system: bool)
        requires
            old(self).last_action() == Some(chosen) ==> old(self).same_count() < u32::MAX,
        ensures
            old(self).last_action() == Some(chosen) ==> {
                &&& final(self).same_count() == old(self).same_count() + 1
                &&& final(self).last_action() == old(self).last_action()
            },
            old(self).last_action() != Some(chosen) ==> {
                &&& final(self).same_count() == 0
                &&& final(self).last_action() == Some(chosen)
            },
            final(self).limit() == old(self).limit(),
            final(self).executed() == old(self).executed().insert(chosen, tick),
            final(self).last_system_tick() == (if is_system { tick } else { old(self).last_system_tick() }),
    {
        let repeat = match self.last_action {
            Some(a) => a == chosen,
            None => false,
        };
        if repeat {
            self.same_action_count = self.same_action_count + 1;
        } else {
            self.same_action_count = 0;
            self.last_action = Some(chosen);
        }
        self.last_executed.insert(chosen, tick);
        if is_system {
            self.last_system_action_tick = tick;
        }
    }
}

/// A system action that has just run cannot run again before its cooldown
/// has passed: right after `record_execution(id, t, true)`, the action is not
/// eligible at any tick `t2` with `t <= t2 < t + SYSTEM_ACTION_COOLDOWN`.
pub proof fn law_system_cooldown(s: ActionSelector, c: CandidateInfo, t: u64, t2: u64)
    requires
        c.is_system,
        s.executed().contains_key(c.id),
        s.executed()[c.id] == t,
        t <= t2,
        t2 < t + SYSTEM_ACTION_COOLDOWN,
    ensures
        !s.eligible(c, t2),
{
}

/// System actions are rate-limited globally: right after any system action
/// ran at `t` (`record_execution(_, t, true)`), no system action is eligible
/// at a tick `t2` with `t <= t2 < t + SYSTEM_ACTION_GLOBAL_COOLDOWN`; only
/// non-system actions can be chosen then.
pub proof fn law_global_system_gap(s: ActionSelector, c: CandidateInfo, t: u64, t2: u64)
    requires
        s.last_system_tick() == t,
        t <= t2,
        t2 < t + SYSTEM_ACTION_GLOBAL_COOLDOWN,
    ensures
        s.eligible(c, t2) ==> !c.is_system,
{
}

/// `after` is `before` once `c` was recorded as executed at `tick`, as
/// `record_execution(c.id, tick, c.is_system)` leaves it.
pub open spec fn recorded(before: ActionSelector, after: ActionSelector, c: CandidateInfo, tick: u64) -> bool {
    &&& after.executed() == before.executed().insert(c.id, tick)
    &&& after.last_system_tick() == (if c.is_system { tick } else { before.last_system_tick() })
}

/// Along a run of recorded executions, none earlier than `t`, the action
/// `id` keeps a last-execution tick of at least `t`, and so does the last
/// system action.
proof fn lemma_run_keeps_ticks(states: Seq<ActionSelector>, recs: Seq<(CandidateInfo, u64)>, id: u32, t: u64, n: nat)
    requires
        states.len() == recs.len() + 1,
        n < states.len(),
        states[0].executed().contains_key(id),
        states[0].executed()[id] >= t,
        states[0].last_system_tick() >= t,
        forall|k: int| 0 <= k < recs.len() ==> #[trigger] recs[k].1 >= t && recorded(states[k], states[k + 1], recs[k].0, recs[k].1),
    ensures
        states[n as int].executed().contains_key(id),
        states[n as int].executed()[id] >= t,
        states[n as int].last_system_tick() >= t,
    decreases n,
{
    if n > 0 {
        lemma_run_keeps_ticks(states, recs, id, t, (n - 1) as nat);
        let k = (n - 1) as int;
        assert(recs[k].1 >= t && recorded(states[k], states[k + 1], recs[k].0, recs[k].1));
    }
}

/// The cooldowns hold whatever is selected in between: after a system
/// action `c` ran at `t`, and any further executions were recorded at ticks
/// no earlier than `t`, `c` is not eligible before `t + SYSTEM_ACTION_COOLDOWN`
/// and no system action is eligible before `t + SYSTEM_ACTION_GLOBAL_COOLDOWN`.
pub proof fn law_cooldowns_survive_selections(
    states: Seq<ActionSelector>,
    recs: Seq<(CandidateInfo, u64)>,
    c: CandidateInfo,
    t: u64,
    t2: u64,
)
    requires
        states.len() == recs.len() + 1,
        c.is_system,
        states[0].executed().contains_key(c.id),
        states[0].executed()[c.id] == t,
        states[0].last_system_tick() == t,
        forall|k: int| 0 <= k < recs.len() ==> #[trigger] recs[k].1 >= t && recorded(states[k], states[k + 1], recs[k].0, recs[k].1),
        t <= t2,
    ensures
        t2 < t + SYSTEM_ACTION_COOLDOWN ==> !states.last().eligible(c, t2),
        t2 < t + SYSTEM_ACTION_GLOBAL_COOLDOWN ==> forall|d: CandidateInfo| #[trigger] states.last().eligible(d, t2) ==> !d.is_system,
{
    lemma_run_keeps_ticks(states, recs, c.id, t, recs.len());
}

} // verus!
