pub mod app_data;
pub mod frames;
pub mod registry;
pub mod types;
