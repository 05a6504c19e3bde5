pub mod aabb;
pub mod gravity;
pub mod engine;
