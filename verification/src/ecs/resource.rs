use vstd::prelude::*;

verus! {

/// Marker for world-scoped singletons: cross-system state that does not
/// belong on an entity.
pub trait Resource {}

} // verus!
