use vstd::prelude::*;

use crate::json::JsonValue;

verus! {

/// One `entities/*.toml` template.
#[derive(Debug)]
pub struct EntitySchema {
    /// The name scenes refer to (not the file name).
    pub name: String,
    /// Tag names attached to every instance.
    pub tags: Vec<String>,
    /// Component values by component name; names are distinct. Only
    /// `position`, `velocity`, `aabb` and `animator` are accepted.
    pub components: Vec<(String, JsonValue)>,
}

} // verus!
