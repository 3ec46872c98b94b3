//! The verified core of gene, a signal-driven agent that regulates its own
//! internal state: pattern indexing, symbol coining and composition,
//! selection cooldowns, the parsing of OS metrics and of its own
//! self-description, and the bookkeeping around them.
use vstd::prelude::*;

pub mod pattern;
pub mod persistence;
pub mod regulation;
pub mod selfmodel;
pub mod signal;
pub mod symbol;
pub mod expression;
pub mod history;
pub mod sample;
pub mod schedule;
pub mod text;
pub mod tui;

verus! {
} // verus!
