pub mod learning;
pub mod types;
pub mod loader;
