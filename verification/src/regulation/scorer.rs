//! The hard filter that protects continuity signals.
use vstd::prelude::*;
use crate::signal::types::SignalClass;

verus! {

/// Computes the imbalance score and scores candidate actions. The real-valued
/// scoring is done by the caller; the filter on continuity signals is here.
pub struct ImbalanceScorer;

/// One entry of an action's effect profile as the filter sees it: the class
/// of the affected signal (none when the signal is not on the bus) and
/// whether the delta is negative.
#[derive(Clone, Copy, Debug, PartialEq, Eq, Structural)]
pub struct EffectSign {
    pub class: Option<SignalClass>,
    pub negative: bool,
}

pub open spec fn harms(e: EffectSign) -> bool {
    e.class == Some(SignalClass::Continuity) && e.negative
}

impl ImbalanceScorer {
    /// Returns true if applying an action with these effects would reduce any
    /// continuity signal. Such actions are filtered out entirely.
    pub fn harms_continuity(effects: &[EffectSign]) -> (r: bool)
        ensures
            r == exists|i: int| 0 <= i < effects@.len() && harms(#[trigger] effects@[i]),
    {
        let mut i: usize = 0;
        while i < effects.len()
            invariant
                i <= effects@.len(),
                forall|t: int| 0 <= t < i ==> !harms(#[trigger] effects@[t]),
            decreases effects@.len() - i,
        {
            let e = effects[i];
            let is_continuity = match e.class {
                Some(SignalClass::Continuity) => true,
                _ => false,
            };
            if is_continuity && e.negative {
                assert(harms(effects@[i as int]));
                return true;
            }
            i = i + 1;
        }
        false
    }
}

} // verus!
