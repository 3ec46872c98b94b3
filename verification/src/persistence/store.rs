//! Records kept in the agent's self-written directives.
use vstd::prelude::*;

verus! {

/// A self-written observation, with the symbols active when it was made.
#[derive(Debug, Clone)]
pub struct SelfObservation {
    pub tick: u64,
    pub observation: String,
    /// Symbol context at time of observation.
    pub symbol_context: Vec<String>,
}

} // verus!
