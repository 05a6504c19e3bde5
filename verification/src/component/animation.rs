use vstd::prelude::*;

verus! {

/// Animation clip identifier. Only the name is carried.
#[derive(Debug)]
pub struct Clip {
    pub name: String,
}

/// Animation playback state over the scalar type `S`.
#[derive(Debug)]
pub struct Animator<S> {
    pub clip: Clip,
    pub elapsed: S,
    pub speed: S,
    pub looping: bool,
}

impl Clone for Clip {
    fn clone(&self) -> (r: Self)
        ensures
            r == *self,
    {
        Clip { name: self.name.clone() }
    }
}

impl<S: Copy> Clone for Animator<S> {
    fn clone(&self) -> (r: Self)
        ensures
            r == *self,
    {
        Animator { clip: self.clip.clone(), elapsed: self.elapsed, speed: self.speed, looping: self.looping }
    }
}

} // verus!
