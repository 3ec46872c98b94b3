pub mod codegen;
pub mod executor;
pub mod paths;
pub mod selfmod;
pub mod store;
pub mod prompt;
