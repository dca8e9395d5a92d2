pub mod error;
pub mod pass;
pub mod pipeline;
pub mod compiler;
pub mod laws;
