use vstd::prelude::*;

use crate::json::JsonValue;
use crate::runtime::schema::rule::EntityMatchSchema;

verus! {

/// `input.toml`.
#[derive(Debug)]
pub struct InputSchema {
    /// `[[map]]` entries, in file order.
    pub maps: Vec<InputMapSchema>,
}

/// One `[[map]]` entry.
#[derive(Debug)]
pub struct InputMapSchema {
    pub trigger: InputTriggerSchema,
    /// Tag filters on the entities the emitted payload may name, one per
    /// parameter name; names are distinct.
    pub match_spec: Vec<(String, EntityMatchSchema)>,
    pub emit: InputEmitSchema,
}

/// What raw input fires a map, selected by its `kind` key.
#[derive(Debug)]
pub enum InputTriggerSchema {
    KeyPress { key: String },
    KeyRelease { key: String },
}

/// The domain event a map publishes.
#[derive(Debug)]
pub struct InputEmitSchema {
    /// Domain event name (the `type` key).
    pub event_type: String,
    /// Payload; `"$name"` strings name matched entities. JSON `null` when
    /// omitted.
    pub payload: JsonValue,
}

/// An input file without maps.
impl Default for InputSchema {
    fn default() -> (r: Self)
        ensures
            r.maps@.len() == 0,
    {
        InputSchema { maps: Vec::new() }
    }
}

} // verus!
