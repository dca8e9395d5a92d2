pub mod cfg;
pub mod dominance;
pub mod graph;
pub mod manager;
pub mod laws;
