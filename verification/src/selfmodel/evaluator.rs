//! Arbitration between the self-model's preference and the regulation engine's choice.
use vstd::prelude::*;

verus! {

/// What the arbitration needs to know of the self-model's preferred action.
#[derive(Clone, Copy, Debug, PartialEq, Eq, Structural)]
pub struct PreferredAction {
    pub id: u32,
    /// Whether the action exists in the action space.
    pub known: bool,
    /// Whether it would reduce a continuity signal.
    pub harms_continuity: bool,
    /// Whether it is a system action.
    pub is_system: bool,
}

/// The action chosen by arbitration.
///
/// With both a self-model preference and a regulation choice: the regulation
/// choice wins when the preferred action is known and harms continuity or is
/// a system action; otherwise the preference wins exactly when
/// `prefer_self_model` (its learned preference is higher, confidence is high
/// enough and it has a recorded preference). With only a preference: it is
/// taken unless it is known and harms continuity or is a system action (no
/// action may be selected that reduces a continuity signal). Without a
/// preference: the regulation choice.
pub open spec fn arbitration(sm: Option<PreferredAction>, reg: Option<u32>, prefer_self_model: bool) -> Option<u32> {
    match (sm, reg) {
        (Some(p), Some(r)) => {
            if p.known && (p.harms_continuity || p.is_system) {
                Some(r)
            } else if prefer_self_model {
                Some(p.id)
            } else {
                Some(r)
            }
        },
        (Some(p), None) => {
            if p.known && (p.harms_continuity || p.is_system) {
                None
            } else {
                Some(p.id)
            }
        },
        (None, r) => r,
    }
}

pub fn arbitrate(sm: Option<PreferredAction>, reg: Option<u32>, prefer_self_model: bool) -> (r: Option<u32>)
    ensures
        r == arbitration(sm, reg, prefer_self_model),
{
    match (sm, reg) {
        (Some(p), Some(r)) => {
            if p.known && (p.harms_continuity || p.is_system) {
                Some(r)
            } else if prefer_self_model {
                Some(p.id)
            } else {
                Some(r)
            }
        },
        (Some(p), None) => {
            if p.known && (p.harms_continuity || p.is_system) {
                None
            } else {
                Some(p.id)
            }
        },
        (None, r) => r,
    }
}

/// The self-model never forces a known system action, nor a known action that
/// would reduce a continuity signal: in those cases arbitration returns the
/// regulation choice (none, when the regulation engine has none).
pub proof fn law_self_model_never_forces_unsafe(sm: PreferredAction, reg: Option<u32>, prefer: bool)
    requires
        sm.known,
        sm.is_system || sm.harms_continuity,
    ensures
        arbitration(Some(sm), reg, prefer) == reg,
{
}

} // verus!
