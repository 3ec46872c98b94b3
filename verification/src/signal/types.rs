//! Identifiers and structural classes of signals.
use vstd::prelude::*;
use crate::text::{padded_decimal, push_padded_decimal, string_from_chars};

verus! {

/// Opaque identifier for a signal. Carries no semantic meaning.
#[derive(Debug, Clone, Copy, PartialEq, Eq, Structural, Hash, PartialOrd, Ord)]
pub struct SignalId(pub u32);

/// Label of a signal id: `s_` followed by the id, zero-padded to four digits.
pub open spec fn signal_label(id: u32) -> Seq<char> {
    seq!['s', '_'] + padded_decimal(id as nat, 4)
}

impl SignalId {
    /// The display form of this id (`s_0007`, `s_0123`, `s_12345`).
    pub fn to_string(&self) -> (s: String)
        ensures
            s@ == signal_label(self.0),
    {
        let mut v: Vec<char> = Vec::new();
        v.push('s');
        v.push('_');
        push_padded_decimal(self.0 as u64, 4, &mut v);
        assert(v@ =~= signal_label(self.0));
        string_from_chars(&v)
    }
}

/// Classification of a signal's role in the system.
/// These are structural roles only — no semantic meaning is assigned.
#[derive(Debug, Clone, Copy, PartialEq, Eq, Structural)]
pub enum SignalClass {
    /// Raw internal state variable
    Somatic,
    /// Computed from a combination of other signals
    Derived,
    /// Fed back from the output of an executed action
    Efferent,
    /// Existential continuity signal — asymmetric cost function applies
    Continuity,
    /// Input polled from the external environment (OS metrics) — read-only from agent's perspective
    World,
}

/// Where a signal delta came from.
#[derive(Debug, Clone, Copy, PartialEq, Eq, Structural)]
pub enum DeltaSource {
    Action(u32),
    External,
    Derived,
    Decay,
}

} // verus!
