use vstd::prelude::*;

verus! {

/// The axis-aligned bounding-box physics engine: integrates velocities and
/// reports overlapping boxes as `collision` domain events.
#[derive(Debug)]
pub struct AabbEngine;

impl AabbEngine {
    /// The engine.
    pub fn new() -> (r: Self)
        ensures
            r == AabbEngine,
    {
        AabbEngine
    }
}

} // verus!
