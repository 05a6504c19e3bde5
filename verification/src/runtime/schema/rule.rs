use vstd::prelude::*;

use crate::json::JsonValue;
use crate::math::Vec2;
use crate::runtime::rules::model::ReverseAxis;

verus! {

/// One `rules/*.toml` file.
#[derive(Debug)]
pub struct RuleSchema<S> {
    /// Name of the event the rule subscribes to.
    pub event: String,
    /// `[match.<param>]` sections, one per parameter name; names are
    /// distinct. Empty for events without entity parameters.
    pub match_spec: Vec<(String, EntityMatchSchema)>,
    /// `[[do]]` entries; an empty list is rejected by the loader.
    pub actions: Vec<ActionSchema<S>>,
}

/// Tag filter on one match parameter.
#[derive(Debug)]
pub struct EntityMatchSchema {
    /// Tag names the entity must have.
    pub with: Vec<String>,
    /// Tag names the entity must not have.
    pub without: Vec<String>,
}

/// A filter with no tag constraints.
impl Default for EntityMatchSchema {
    fn default() -> (r: Self)
        ensures
            r.with@.len() == 0,
            r.without@.len() == 0,
    {
        EntityMatchSchema { with: Vec::new(), without: Vec::new() }
    }
}

/// One `[[do]]` entry, selected by its `action` key.
#[derive(Debug)]
pub enum ActionSchema<S> {
    SetVelocity { entity: String, x: S, y: S },
    ReverseVelocity { entity: String, axis: ReverseAxis },
    Spawn { template: String, position: Vec2<S> },
    Despawn { entity: String },
    /// `payload` is JSON `null` when omitted.
    Emit { event: String, payload: JsonValue },
    PlayAnimation { entity: String, clip: String, priority: u8 },
}

/// Animation priority used when `play_animation` omits it.
pub fn default_priority() -> (r: u8)
    ensures
        r == 0,
{
    0
}

} // verus!
