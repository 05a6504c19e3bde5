use vstd::prelude::*;

use crate::json::JsonValue;

verus! {

/// One `scenes/*.toml` file.
#[derive(Debug)]
pub struct SceneSchema {
    pub name: String,
    /// Entity instances spawned when the scene loads, in order.
    pub entities: Vec<SceneEntitySchema>,
    /// Domain events queued right after the scene is spawned.
    pub initial_events: Vec<JsonValue>,
}

/// One scene entity.
#[derive(Debug)]
pub struct SceneEntitySchema {
    /// Name of the template it instantiates.
    pub template: String,
    /// Per-instance component values on top of the template's, by
    /// component name; names are distinct.
    pub overrides: Vec<(String, JsonValue)>,
}

} // verus!
