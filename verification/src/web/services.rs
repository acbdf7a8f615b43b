pub mod ai;
pub mod cache;
pub mod env;
pub mod metadata;
pub mod summary;
