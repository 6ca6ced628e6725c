use vstd::prelude::*;

verus! {

/// Width of a chunk, in tiles.
pub const CHUNK_W: i32 = 64;

/// Height of a chunk, in tiles.
pub const CHUNK_H: i32 = 64;

/// Radius, in chunks, of the half-open window kept resident around the
/// observer: each axis covers `[-RENDER_DISTANCE, RENDER_DISTANCE)`.
pub const RENDER_DISTANCE: i32 = 2;

/// Reserved for an initial prefetch pass; generation itself never reads it.
pub const STARTING_CHUNK_RADIUS: i32 = 2;

/// Width of a tile, in world units.
pub const TILE_W: i32 = 50;

/// Height of a tile, in world units.
pub const TILE_H: i32 = 50;

} // verus!
