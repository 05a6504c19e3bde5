use vstd::prelude::*;

use crate::math::Vec2;

verus! {

/// `game.toml`: the file whose presence marks a project root.
#[derive(Debug)]
pub struct GameSchema<S> {
    /// Manifest format version; only `1` is accepted.
    pub schema_version: u32,
    /// Name of the scene loaded at startup (`"main"` when omitted).
    pub main_scene: String,
    pub world: WorldSchema,
    pub physics: PhysicsSchema<S>,
}

/// `[world]` table.
#[derive(Debug)]
pub struct WorldSchema {
    /// Ticks per second of wall-clock time (60 when the table is present
    /// without it). Step-driven runs ignore it.
    pub tick_rate: u32,
}

/// `[physics]` table.
#[derive(Debug)]
pub struct PhysicsSchema<S> {
    /// Physics engine name (`"aabb"` when the table is present without
    /// it); only `"aabb"` is supported.
    pub engine: String,
    /// Optional gravity vector.
    pub gravity: Option<Vec2<S>>,
}

/// Tick rate used when `[world]` omits it.
pub fn default_tick_rate() -> (r: u32)
    ensures
        r == 60,
{
    60
}

/// Engine name used when `[physics]` omits it.
pub fn default_engine_name() -> (r: String)
    ensures
        r@ == "aabb"@,
{
    "aabb".to_owned()
}

/// Scene name used when `game.toml` omits `main_scene`.
pub fn default_main_scene() -> (r: String)
    ensures
        r@ == "main"@,
{
    "main".to_owned()
}

/// A missing `[world]` table: every field at its type's zero value.
impl Default for WorldSchema {
    fn default() -> (r: Self)
        ensures
            r.tick_rate == 0,
    {
        WorldSchema { tick_rate: 0 }
    }
}

/// A missing `[physics]` table: an empty engine name and no gravity.
impl<S> Default for PhysicsSchema<S> {
    fn default() -> (r: Self)
        ensures
            r.engine@ == Seq::<char>::empty(),
            r.gravity is None,
    {
        PhysicsSchema { engine: String::new(), gravity: None }
    }
}

} // verus!
