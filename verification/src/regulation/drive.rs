//! Stagnation tracking and the circuit breaker of the regulation drive.
use vstd::prelude::*;
use crate::signal::types::SignalId;

verus! {

/// Minimum ticks between circuit breaker fires.
/// Prevents the selector from being reset faster than causal learning can accumulate.
pub const CIRCUIT_BREAK_COOLDOWN: u64 = 1000;

/// `a - b`, or 0 when `b > a`.
pub open spec fn ticks_since(a: u64, b: u64) -> int {
    if a >= b { a - b } else { 0 }
}

/// The RegulationDrive translates imbalance into urgency and watches for
/// stagnation: when imbalance has not decreased for `stagnation_limit`
/// consecutive updates, the circuit breaker fires (at most once per
/// `CIRCUIT_BREAK_COOLDOWN` ticks). Whether one update counts as stagnant is
/// decided by the caller from the real-valued imbalance.
pub struct RegulationDrive {
    /// The signal ID on the bus that reflects the drive level
    pub drive_signal_id: SignalId,
    /// If imbalance has not decreased in this many consecutive ticks → circuit breaker fires
    pub stagnation_limit: u32,
    stagnation_count: u32,
    /// Last tick the circuit breaker fired — enforces CIRCUIT_BREAK_COOLDOWN
    last_circuit_break_tick: u64,
}

impl RegulationDrive {
    /// Consecutive stagnant updates so far.
    pub closed spec fn stagnation(&self) -> u32 {
        self.stagnation_count
    }

    /// Tick at which the circuit breaker last fired (0 before it ever fired).
    pub closed spec fn last_break(&self) -> u64 {
        self.last_circuit_break_tick
    }

    /// The configured stagnation limit.
    pub closed spec fn limit(&self) -> u32 {
        self.stagnation_limit
    }

    /// The drive's signal id.
    pub closed spec fn signal_id(&self) -> SignalId {
        self.drive_signal_id
    }

    pub fn new(drive_signal_id: SignalId, stagnation_limit: u32) -> (d: RegulationDrive)
        ensures
            d.signal_id() == drive_signal_id,
            d.limit() == stagnation_limit,
            d.stagnation() == 0,
            d.last_break() == 0,
    {
        RegulationDrive { drive_signal_id, stagnation_limit, stagnation_count: 0, last_circuit_break_tick: 0 }
    }

    /// Update drive state with one observation (`stagnant`: the imbalance did
    /// not decrease). Returns true if the circuit breaker should fire.
    pub fn update(&mut self, stagnant: bool, tick: u64) -> (fire: bool)
        requires
            stagnant ==> old(self).stagnation() < u32::MAX,
        ensures
            final(self).signal_id() == old(self).signal_id(),
            final(self).limit() == old(self).limit(),
            final(self).stagnation() == (if stagnant { old(self).stagnation() + 1 } else { 0 }),
            fire == (final(self).stagnation() >= old(self).limit()
                && ticks_since(tick, old(self).last_break()) >= CIRCUIT_BREAK_COOLDOWN),
            final(self).last_break() == (if fire { tick } else { old(self).last_break() }),
    {
        if stagnant {
            self.stagnation_count = self.stagnation_count + 1;
        } else {
            self.stagnation_count = 0;
        }
        if self.stagnation_count >= self.stagnation_limit
            && tick.saturating_sub(self.last_circuit_break_tick) >= CIRCUIT_BREAK_COOLDOWN
        {
            self.last_circuit_break_tick = tick;
            return true;
        }
        false
    }

    /// Consecutive stagnant updates so far.
    pub fn stagnation_count(&self) -> (r: u32)
        ensures
            r == self.stagnation(),
    {
        self.stagnation_count
    }

    pub fn reset_stagnation(&mut self)
        ensures
            final(self).signal_id() == old(self).signal_id(),
            final(self).limit() == old(self).limit(),
            final(self).stagnation() == 0,
            final(self).last_break() == old(self).last_break(),
    {
        self.stagnation_count = 0;
    }
}

/// The circuit breaker never fires twice within `CIRCUIT_BREAK_COOLDOWN`
/// ticks. `after_fire` is the drive right after an `update` that fired at
/// `t1`; `later` is reached from it by updates that did not fire (they keep
/// the last-break tick); an update on `later` at `t2` that fires has
/// `t2 >= t1 + CIRCUIT_BREAK_COOLDOWN`.
pub proof fn law_breaker_cooldown(after_fire: RegulationDrive, later: RegulationDrive, t1: u64, t2: u64)
    requires
        after_fire.last_break() == t1,
        later.last_break() == after_fire.last_break(),
        later.stagnation() >= later.limit(),
        ticks_since(t2, later.last_break()) >= CIRCUIT_BREAK_COOLDOWN,
    ensures
        t2 >= t1 + CIRCUIT_BREAK_COOLDOWN,
{
}

} // verus!
