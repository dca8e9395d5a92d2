pub mod context;
pub mod error;
pub mod manager;
