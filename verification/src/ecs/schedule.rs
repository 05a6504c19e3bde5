use vstd::prelude::*;

use crate::ecs::world::World;

verus! {

/// Per-tick context shared by every system: the tick number and the
/// time step, over the scalar type `S`.
#[derive(Debug)]
pub struct TickContext<S> {
    pub tick: u64,
    pub dt: S,
}

impl<S: Copy> Clone for TickContext<S> {
    fn clone(&self) -> (r: Self)
        ensures
            r == *self,
    {
        TickContext { tick: self.tick, dt: self.dt }
    }
}

impl<S: Copy> Copy for TickContext<S> {}

/// One unit of work per tick, run against the world. Implemented by the
/// engine's users (the physics step is one).
pub trait System<S, R> {
    /// Stable identifier for logs and debug dumps.
    fn name(&self) -> &str;

    /// Runs the system once.
    fn run(&mut self, world: &mut World<S, R>, ctx: &TickContext<S>);
}

} // verus!
