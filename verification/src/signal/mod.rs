pub mod types;
pub mod world;
pub mod flux;
pub mod bus;
