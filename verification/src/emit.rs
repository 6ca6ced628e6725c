use vstd::prelude::*;
use crate::classify::{get_tile, kind_of, spec_classify, spec_kind_of, TileKind};
use crate::config::{CHUNK_H, CHUNK_W, TILE_H, TILE_W};
use crate::stream::spec_insert_all;
use crate::world::{ChunkModel, World};

verus! {

/// One emitted placement: the world-space position of a tile and the
/// symbolic kind of asset to draw there. Ephemeral — consumed by the
/// rendering collaborator and not retained.
#[derive(Clone, Copy, PartialEq, Eq, Structural, Debug)]
pub struct Placement {
    pub x: i64,
    pub y: i64,
    pub kind: TileKind,
}

/// The placement emitted for local tile `(x, y)` of the chunk at `id`: the
/// local coordinate scaled by the tile size, shifted by the chunk's
/// world-space offset, with the kind drawn for `variant`.
pub open spec fn spec_placement(id: (int, int), x: int, y: int, variant: int) -> Placement {
    Placement {
        x: (x * (TILE_W as int) + id.0 * (CHUNK_W as int) * (TILE_W as int)) as i64,
        y: (y * (TILE_H as int) + id.1 * (CHUNK_H as int) * (TILE_H as int)) as i64,
        kind: spec_kind_of(variant),
    }
}

/// The placements of the first `k` sweep positions of a chunk: position
/// `k` is local tile `(k / 64, k % 64)`, and occupied tiles each emit one
/// placement, classified against the chunk's own occupied set.
pub open spec fn chunk_placements_upto(c: ChunkModel, k: int) -> Seq<Placement>
    decreases k,
{
    if k <= 0 {
        Seq::empty()
    } else {
        let x = (k - 1) / 64;
        let y = (k - 1) % 64;
        let rest = chunk_placements_upto(c, k - 1);
        if c.map.contains((x, y)) {
            rest.push(spec_placement(c.id, x, y, spec_classify(c.map, x, y)))
        } else {
            rest
        }
    }
}

/// Every placement of one chunk, one per occupied tile, in sweep order.
pub open spec fn chunk_placements(c: ChunkModel) -> Seq<Placement> {
    chunk_placements_upto(c, 4096)
}

/// A chunk after materialization: only the materialized flag changes.
pub open spec fn mark_one(c: ChunkModel) -> ChunkModel {
    ChunkModel { is_rendered: true, ..c }
}

/// The chunk list after one materializer pass: every chunk is marked.
pub open spec fn mark_all(chunks: Seq<ChunkModel>) -> Seq<ChunkModel> {
    chunks.map_values(|c: ChunkModel| mark_one(c))
}

/// What one materializer pass emits: the placements of each not-yet-
/// materialized chunk, in insertion order.
pub open spec fn emitted_from(chunks: Seq<ChunkModel>) -> Seq<Placement>
    decreases chunks.len(),
{
    if chunks.len() == 0 {
        Seq::empty()
    } else {
        emitted_from(chunks.drop_last()) + (if chunks.last().is_rendered {
            Seq::empty()
        } else {
            chunk_placements(chunks.last())
        })
    }
}

/// One materializer pass: scans the chunks in insertion order, emits one
/// placement per occupied tile of each chunk not yet materialized, and marks
/// that chunk; a marked chunk never emits again.
pub fn materialize(world: &mut World) -> (out: Vec<Placement>)
    requires
        old(world).wf(),
    ensures
        final(world).wf(),
        final(world).seed == old(world).seed,
        final(world)@.chunks == mark_all(old(world)@.chunks),
        out@ == emitted_from(old(world)@.chunks),
{
    let mut out: Vec<Placement> = Vec::new();
    let n = world.chunks.len();
    proof {
        assert(out@ =~= emitted_from(old(world)@.chunks.take(0)));
    }
    let mut ci: usize = 0;
    while ci < n
        invariant
            world.wf(),
            world.seed == old(world).seed,
            n == world.chunks@.len(),
            n == old(world)@.chunks.len(),
            ci <= n,
            forall|j: int| 0 <= j < ci ==> world@.chunks[j] == mark_one(old(world)@.chunks[j]),
            forall|j: int| ci <= j < n ==> world@.chunks[j] == old(world)@.chunks[j],
            out@ == emitted_from(old(world)@.chunks.take(ci as int)),
        decreases n - ci,
    {
        let ghost c = world@.chunks[ci as int];
        if !world.chunks[ci].is_rendered {
            let mut k: usize = 0;
            while k < 4096
                invariant
                    world.wf(),
                    world.seed == old(world).seed,
                    n == world.chunks@.len(),
                    n == old(world)@.chunks.len(),
                    ci < n,
                    k <= 4096,
                    forall|j: int|
                        0 <= j < ci ==> world@.chunks[j] == mark_one(old(world)@.chunks[j]),
                    forall|j: int| ci <= j < n ==> world@.chunks[j] == old(world)@.chunks[j],
                    c == world@.chunks[ci as int],
                    out@ == emitted_from(old(world)@.chunks.take(ci as int))
                        + chunk_placements_upto(c, k as int),
                decreases 4096 - k,
            {
                let x = k / 64;
                let y = k % 64;
                if world.chunks[ci].map.contains_at(x as i64, y as i64) {
                    let variant = get_tile(x as i64, y as i64, &world.chunks[ci].map);
                    let kind = kind_of(variant);
                    let cid = world.chunks[ci].id;
                    let wx: i64 = (x as i64) * (TILE_W as i64) + (cid.0 as i64) * (CHUNK_W as i64)
                        * (TILE_W as i64);
                    let wy: i64 = (y as i64) * (TILE_H as i64) + (cid.1 as i64) * (CHUNK_H as i64)
                        * (TILE_H as i64);
                    out.push(Placement { x: wx, y: wy, kind });
                    proof {
                        assert(out@ =~= emitted_from(old(world)@.chunks.take(ci as int))
                            + chunk_placements_upto(c, k as int + 1));
                    }
                } else {
                    proof {
                        assert(out@ =~= emitted_from(old(world)@.chunks.take(ci as int))
                            + chunk_placements_upto(c, k as int + 1));
                    }
                }
                k += 1;
            }
        }
        let ghost prevs = world.chunks@;
        let ghost prevm = world@.chunks;
        world.chunks[ci].is_rendered = true;
        proof {
            assert(world.chunks@ == prevs.update(ci as int, world.chunks@[ci as int]));
            assert forall|j: int|
                0 <= j < n && j != ci as int implies world@.chunks[j] == prevm[j] by {
                assert(world.chunks@[j] == prevs[j]);
            }
            assert(world@.chunks[ci as int] == mark_one(prevm[ci as int]));
            assert(prevm[ci as int] == old(world)@.chunks[ci as int]);
            assert(mark_one(prevm[ci as int]) == mark_one(old(world)@.chunks[ci as int]));
            assert forall|j: int|
                0 <= j < ci as int + 1 implies world@.chunks[j] == mark_one(
                old(world)@.chunks[j],
            ) by {
                if j < ci as int {
                    assert(world@.chunks[j] == prevm[j]);
                    assert(prevm[j] == mark_one(old(world)@.chunks[j]));
                }
            }
            assert(old(world)@.chunks.take(ci as int + 1).drop_last() =~= old(world)@.chunks.take(
                ci as int,
            ));
            assert(out@ =~= emitted_from(old(world)@.chunks.take(ci as int + 1)));
        }
        ci += 1;
    }
    proof {
        assert(old(world)@.chunks.take(n as int) =~= old(world)@.chunks);
        assert(world@.chunks =~= mark_all(old(world)@.chunks));
    }
    out
}

/// Materialization is idempotent: a pass leaves every chunk marked, a marked
/// chunk emits nothing, so a second pass right after a first emits no
/// placement and changes nothing.
pub proof fn lemma_materialize_idempotent(chunks: Seq<ChunkModel>)
    ensures
        emitted_from(mark_all(chunks)) == Seq::<Placement>::empty(),
        mark_all(mark_all(chunks)) == mark_all(chunks),
    decreases chunks.len(),
{
    assert(mark_all(mark_all(chunks)) =~= mark_all(chunks));
    if chunks.len() == 0 {
        assert(emitted_from(mark_all(chunks)) =~= Seq::<Placement>::empty());
    } else {
        lemma_materialize_idempotent(chunks.drop_last());
        assert(mark_all(chunks).drop_last() =~= mark_all(chunks.drop_last()));
        assert(mark_all(chunks).last() == mark_one(chunks.last()));
        assert(emitted_from(mark_all(chunks)) =~= Seq::<Placement>::empty());
    }
}

/// Materialization never touches a chunk's id or occupied set, and never
/// adds or removes a chunk: only the materialized flag changes.
pub proof fn lemma_materialize_preserves_chunks(chunks: Seq<ChunkModel>)
    ensures
        mark_all(chunks).len() == chunks.len(),
        forall|j: int|
            0 <= j < chunks.len() ==> ((#[trigger] mark_all(chunks)[j]).id == chunks[j].id
                && mark_all(chunks)[j].map == chunks[j].map),
{
}

/// One whole tick — admitting the missing candidates, then materializing —
/// never shrinks the chunk count; over any sequence of ticks the count is
/// monotone.
pub proof fn lemma_tick_monotonic(
    chunks: Seq<ChunkModel>,
    ids: Seq<(int, int)>,
    provs: Seq<Set<(int, int)>>,
)
    ensures
        mark_all(spec_insert_all(chunks, ids, provs)).len() >= chunks.len(),
{
    crate::stream::lemma_streaming_monotonic(chunks, ids, provs);
}

} // verus!
