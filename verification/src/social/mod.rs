pub mod buddy;
pub mod party;
pub mod retain;
pub mod types;
pub mod inbox;
pub mod commands;
pub mod frames;
