//! Verified core of a CLI-first 2D game engine: generational entities,
//! component columns, tag interning and tag sets, the tick-local event
//! queue, the rule engine that reacts to domain events, and the pure parts
//! of manifest loading.

pub mod component;
pub mod ecs;
pub mod event;
pub mod json;
pub mod math;
pub mod physics;
pub mod runtime;
pub mod tag;
pub mod text;
