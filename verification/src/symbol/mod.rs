pub mod composition;
pub mod grounder;
pub mod ledger;
