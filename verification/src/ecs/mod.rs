pub mod component;
pub mod entity;
pub mod error;
pub mod query;
pub mod resource;
pub mod world;
pub mod laws;
pub mod schedule;
