//! Outcomes of source self-modification attempts.
use vstd::prelude::*;
use std::path::PathBuf;

verus! {

/// What an attempt at source modification came to.
pub enum SourceModResult {
    Skipped(String),
    NoProposal,
    ProposalWritten(PathBuf),
    SyntaxError(String),
}

} // verus!
