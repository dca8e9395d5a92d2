pub mod analysis;
pub mod conversion;
pub mod diagnostic;
pub mod kernel;
pub mod names;
pub mod pass;
pub mod planning;
pub mod policy;
pub mod registry;
pub mod request;
pub mod target;
pub mod text;
