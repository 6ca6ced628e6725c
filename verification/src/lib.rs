//! Chunked procedural terrain generation and streaming.
//!
//! As an observer moves through an unbounded 2D grid world, the library
//! decides which 64x64-tile chunks must exist, prunes geometrically invalid
//! tiles from each chunk's provisional land set, classifies each tile's
//! visual variant from its 4-neighbor occupancy, and materializes each
//! generated chunk exactly once into world-space placement records.
//!
//! The provisional land set itself is sampled from a seeded noise field by
//! the embedding application — the field's floating-point surface cannot be
//! verified — and handed in per missing chunk; everything from pruning on is
//! verified here.

pub mod classify;
pub mod config;
pub mod emit;
pub mod gen;
pub mod stream;
pub mod tiles;
pub mod world;
