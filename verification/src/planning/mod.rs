pub mod edge;
pub mod error;
pub mod stage;
pub mod registry;
pub mod plan;
pub mod route;
pub mod planner;
pub mod evaluate;
pub mod assemble;
pub mod laws;
pub mod execution;
