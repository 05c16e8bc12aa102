pub mod inventory;
pub mod types;
