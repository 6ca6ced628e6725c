use vstd::prelude::*;
use crate::tiles::TileSet;

verus! {

/// One generated 64x64 tile region.
pub struct Chunk {
    /// The chunk's position in chunk space (not tile or world space).
    pub id: (i32, i32),
    /// The occupied ("land") local tile coordinates; never mutated once the
    /// chunk has been generated.
    pub map: TileSet,
    /// False until the materializer has emitted placements for the chunk;
    /// transitions to true exactly once.
    pub is_rendered: bool,
}

/// Mathematical model of a chunk.
pub struct ChunkModel {
    pub id: (int, int),
    pub map: Set<(int, int)>,
    pub is_rendered: bool,
}

impl View for Chunk {
    type V = ChunkModel;

    open spec fn view(&self) -> ChunkModel {
        ChunkModel {
            id: (self.id.0 as int, self.id.1 as int),
            map: self.map@,
            is_rendered: self.is_rendered,
        }
    }
}

/// Whole-session world state: the seed, fixed at creation, and every chunk
/// generated so far, in insertion order, unique by id. Chunks are never
/// removed: the collection only grows.
pub struct World {
    pub chunks: Vec<Chunk>,
    pub seed: u32,
}

/// Mathematical model of the world state.
pub struct WorldModel {
    pub chunks: Seq<ChunkModel>,
    pub seed: u32,
}

impl View for World {
    type V = WorldModel;

    open spec fn view(&self) -> WorldModel {
        WorldModel { chunks: self.chunks@.map_values(|c: Chunk| c@), seed: self.seed }
    }
}

/// Whether some chunk of `chunks` carries the id.
pub open spec fn has_id(chunks: Seq<ChunkModel>, id: (int, int)) -> bool {
    exists|i: int| 0 <= i < chunks.len() && chunks[i].id == id
}

impl World {
    /// Every chunk's tile set covers the 64x64 domain, and chunk ids are
    /// unique.
    pub open spec fn wf(self) -> bool {
        &&& forall|i: int|
            0 <= i < self.chunks@.len() ==> (#[trigger] self.chunks@[i]).map.wf()
        &&& forall|i: int, j: int|
            0 <= i < j < self.chunks@.len() ==> self.chunks@[i]@.id != self.chunks@[j]@.id
    }

    /// A fresh world for the given seed, with no chunks generated yet.
    pub fn new(seed: u32) -> (w: World)
        ensures
            w.wf(),
            w@.chunks == Seq::<ChunkModel>::empty(),
            w.seed == seed,
    {
        let w = World { chunks: Vec::new(), seed };
        proof {
            assert(w@.chunks =~= Seq::<ChunkModel>::empty());
        }
        w
    }

    /// A fresh world seeded at random, as one is seeded at startup.
    pub fn with_random_seed() -> (w: World)
        ensures
            w.wf(),
            w@.chunks == Seq::<ChunkModel>::empty(),
            10000 <= w.seed < 99999,
    {
        World::new(random_seed())
    }

    /// Whether a chunk with this id has already been generated.
    pub fn has_chunk(&self, id: (i32, i32)) -> (r: bool)
        ensures
            r == has_id(self@.chunks, (id.0 as int, id.1 as int)),
    {
        let mut i: usize = 0;
        while i < self.chunks.len()
            invariant
                i <= self.chunks@.len(),
                forall|j: int|
                    0 <= j < i ==> self@.chunks[j].id != (id.0 as int, id.1 as int),
            decreases self.chunks@.len() - i,
        {
            let c = &self.chunks[i];
            if c.id.0 == id.0 && c.id.1 == id.1 {
                proof {
                    assert(self@.chunks[i as int].id == (id.0 as int, id.1 as int));
                }
                return true;
            }
            i += 1;
        }
        false
    }

    /// How many chunks have been generated so far.
    pub fn chunk_count(&self) -> (n: usize)
        ensures
            n == self@.chunks.len(),
    {
        self.chunks.len()
    }
}

/// Relies on `rand::random_range` over the half-open range `10000..99999`
/// of `u32`: the range is not empty, so the call returns a value drawn from
/// it. Nothing more is assumed of a random value.
#[verifier::external_body]
fn random_seed() -> (s: u32)
    ensures
        10000 <= s < 99999,
{
    rand::random_range(10000u32..99999u32)
}

} // verus!
