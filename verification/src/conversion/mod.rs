pub mod error;
pub mod target;
pub mod driver;
pub mod value_mapping;
pub mod type_converter;
pub mod signature;
pub mod operands;
pub mod patterns;
pub mod reconcile;
pub mod messages;
