pub mod dialogue;
pub mod log;
pub mod tracker;
pub mod types;
pub mod loader;
