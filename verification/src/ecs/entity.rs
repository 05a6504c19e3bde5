use vstd::prelude::*;

use crate::text::{decimal, push_decimal};

verus! {

/// Generational entity handle: a stable slot index and a generation
/// counter that bumps each time the slot is reused, so a stale handle
/// never aliases the entity that later occupies its slot.
#[derive(PartialEq, Eq, Structural, Debug, Hash)]
pub struct Entity {
    pub index: u32,
    pub generation: u32,
}

impl Clone for Entity {
    fn clone(&self) -> (r: Self)
        ensures
            r == *self,
    {
        Entity { index: self.index, generation: self.generation }
    }
}

impl Copy for Entity {}

/// An entity handle as its `Debug` rendering shows it.
pub open spec fn entity_debug(e: Entity) -> Seq<char> {
    "Entity { index: "@ + decimal(e.index as nat) + ", generation: "@ + decimal(e.generation as nat) + " }"@
}

/// Appends the `Debug` rendering of `e` to `out`.
pub fn push_entity_debug(out: &mut String, e: Entity)
    ensures
        final(out)@ == old(out)@ + entity_debug(e),
{
    let ghost start = out@;
    out.append("Entity { index: ");
    push_decimal(out, e.index as u64);
    out.append(", generation: ");
    push_decimal(out, e.generation as u64);
    out.append(" }");
    assert(out@ =~= start + entity_debug(e));
}

} // verus!
