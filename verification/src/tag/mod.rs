pub mod id;
pub mod registry;
pub mod set;
