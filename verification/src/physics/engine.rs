use vstd::prelude::*;

use crate::ecs::schedule::System;

verus! {

/// Marker for "this system runs the physics step". The body stays empty
/// until a second engine reveals a common surface.
pub trait PhysicsEngine<S, R>: System<S, R> {}

} // verus!
