pub mod layout;
pub mod manifest;
pub mod types;
pub mod xml;
