use vstd::prelude::*;

verus! {

/// Interned identifier for a tag name. Cheap to copy and compare; the
/// mapping back to the name lives in `TagRegistry`.
///
/// The storage is `u16`, but the effective cap is `MAX_TAGS` because
/// `TagSet` is a `u128` inline bitset.
#[derive(PartialEq, Eq, Structural, Debug, Hash)]
pub struct TagId(pub u16);

impl Clone for TagId {
    fn clone(&self) -> (r: Self)
        ensures
            r == *self,
    {
        TagId(self.0)
    }
}

impl Copy for TagId {}

/// Maximum number of distinct tag names a single world can intern.
pub const MAX_TAGS: usize = 128;

} // verus!
