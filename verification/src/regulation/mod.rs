pub mod drive;
pub mod scorer;
pub mod selector;
