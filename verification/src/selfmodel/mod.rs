pub mod evaluator;
pub mod model;
