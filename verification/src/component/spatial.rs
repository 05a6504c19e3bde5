use vstd::prelude::*;

use crate::math::Vec2;

verus! {

/// World-space position of an entity.
#[derive(Debug, PartialEq)]
pub struct Position<S>(pub Vec2<S>);

/// World-space velocity, added to `Position` each tick (scaled by `dt`).
#[derive(Debug, PartialEq)]
pub struct Velocity<S>(pub Vec2<S>);

/// Axis-aligned bounding box spanning
/// `[Position - half_extents, Position + half_extents]`.
#[derive(Debug, PartialEq)]
pub struct Aabb<S> {
    pub half_extents: Vec2<S>,
}

impl<S: Copy> Clone for Position<S> {
    fn clone(&self) -> (r: Self)
        ensures
            r == *self,
    {
        Position(self.0)
    }
}

impl<S: Copy> Copy for Position<S> {}

impl<S: Copy> Clone for Velocity<S> {
    fn clone(&self) -> (r: Self)
        ensures
            r == *self,
    {
        Velocity(self.0)
    }
}

impl<S: Copy> Copy for Velocity<S> {}

impl<S: Copy> Clone for Aabb<S> {
    fn clone(&self) -> (r: Self)
        ensures
            r == *self,
    {
        Aabb { half_extents: self.half_extents }
    }
}

impl<S: Copy> Copy for Aabb<S> {}

} // verus!
