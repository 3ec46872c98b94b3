pub mod extractor;
pub mod index;
pub mod record;
