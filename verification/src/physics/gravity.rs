use vstd::prelude::*;

use crate::math::Vec2;

verus! {

/// World-scoped gravity vector applied by the physics step.
#[derive(Debug)]
pub struct Gravity<S>(pub Vec2<S>);

impl<S: Copy> Clone for Gravity<S> {
    fn clone(&self) -> (r: Self)
        ensures
            r == *self,
    {
        Gravity(self.0)
    }
}

impl<S: Copy> Copy for Gravity<S> {}

} // verus!
