pub mod constraint;
pub mod decision;
pub mod error;
pub mod objective;
pub mod scope;
pub mod value;
