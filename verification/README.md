# chisel

The core of a command-line-first 2D game engine, written in Verus: the
logic carries `requires` / `ensures` contracts and is proved by the
verifier; the command line, file loading, serialisation, the async bus and
the floating-point physics sit around it as ordinary Rust.

## Layout

- `src/` — the verified library.
  - `ecs/` — generational entities, component columns, queries, and laws
    on spawning, despawning and component access.
  - `tag/` — the tag-name intern table and the `u128` tag bitset.
  - `event/` — event payloads, the tick-local event queue, channel names.
  - `json.rs` — the JSON value model that payloads and manifests use.
  - `runtime/` — rule loading and the rule processor (with its laws),
    input mapping, templates, scene spawning, snapshots, JSONL routing and
    command planning.
  - `math.rs`, `text.rs` — scalars (with `F32Bits`, an `f32` held as its
    bits), decimal rendering, string ordering and sorting.
- `tests/` — tests of the library, run against the compiled crate.
- `app/` — the command line, manifest loading from disk (`toml`,
  `serde`), the `tokio` bus, JSONL output, the schedule and the AABB
  physics on `f32`.
