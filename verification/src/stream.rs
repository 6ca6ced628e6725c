use vstd::prelude::*;
use vstd::arithmetic::div_mod::lemma_div_is_ordered;
use crate::config::{CHUNK_W, RENDER_DISTANCE, TILE_W};
use crate::gen::{prune, spec_prune};
use crate::tiles::TileSet;
use crate::world::{has_id, Chunk, ChunkModel, World};

verus! {

/// Chunk-space coordinate along one axis of a world-space position: floored
/// division by the tile size, then by the chunk size — toward negative
/// infinity on both steps, not truncation.
pub open spec fn spec_chunk_coord(p: int) -> int {
    (p / (TILE_W as int)) / (CHUNK_W as int)
}

/// Bound on observer world positions under which every id of the streaming
/// window fits in chunk-space `i32` coordinates.
pub const OBSERVER_POS_BOUND: i64 = 6_800_000_000_000;

/// The 16 chunk ids the streaming window wants around observer chunk
/// `(ocx, ocy)`: the half-open square `[-2, 2) x [-2, 2)` of offsets — the
/// render distance is 2, and the window is deliberately not centered —
/// shifted by the observer chunk, in sweep order.
pub open spec fn wanted_ids(ocx: int, ocy: int) -> Seq<(int, int)> {
    Seq::new(16, |k: int| (ocx - 2 + k / 4, ocy - 2 + k % 4))
}

/// The ids of `ids`, in order, that no chunk of `chunks` carries.
pub open spec fn missing_from(chunks: Seq<ChunkModel>, ids: Seq<(int, int)>) -> Seq<(int, int)>
    decreases ids.len(),
{
    if ids.len() == 0 {
        Seq::empty()
    } else {
        let rest = missing_from(chunks, ids.drop_last());
        if has_id(chunks, ids.last()) {
            rest
        } else {
            rest.push(ids.last())
        }
    }
}

/// Floored division by the tile or chunk size.
fn div_floor(a: i64, b: i64) -> (q: i64)
    requires
        b == TILE_W as i64 || b == CHUNK_W as i64,
    ensures
        q == a as int / b as int,
{
    proof {
        lemma_div_is_ordered(i64::MIN as int, a as int, b as int);
        lemma_div_is_ordered(a as int, i64::MAX as int, b as int);
    }
    a.checked_div_euclid(b).unwrap()
}

/// The chunk containing a world position along one axis.
pub fn chunk_coord(p: i64) -> (c: i64)
    ensures
        c == spec_chunk_coord(p as int),
{
    div_floor(div_floor(p, TILE_W as i64), CHUNK_W as i64)
}

/// The streaming decision of one tick: the window ids around the observer at
/// world position `(px, py)` whose chunks do not exist yet, in window sweep
/// order. The caller generates a provisional occupied set for each and hands
/// the batch to `insert_chunks`.
pub fn missing_chunks(world: &World, px: i64, py: i64) -> (out: Vec<(i32, i32)>)
    requires
        -OBSERVER_POS_BOUND <= px <= OBSERVER_POS_BOUND,
        -OBSERVER_POS_BOUND <= py <= OBSERVER_POS_BOUND,
    ensures
        out@.map_values(|id: (i32, i32)| (id.0 as int, id.1 as int)) == missing_from(
            world@.chunks,
            wanted_ids(spec_chunk_coord(px as int), spec_chunk_coord(py as int)),
        ),
{
    proof {
        lemma_div_is_ordered(-OBSERVER_POS_BOUND as int, px as int, TILE_W as int);
        lemma_div_is_ordered(px as int, OBSERVER_POS_BOUND as int, TILE_W as int);
        lemma_div_is_ordered(-136_000_000_000, px as int / (TILE_W as int), CHUNK_W as int);
        lemma_div_is_ordered(px as int / (TILE_W as int), 136_000_000_000, CHUNK_W as int);
        lemma_div_is_ordered(-OBSERVER_POS_BOUND as int, py as int, TILE_W as int);
        lemma_div_is_ordered(py as int, OBSERVER_POS_BOUND as int, TILE_W as int);
        lemma_div_is_ordered(-136_000_000_000, py as int / (TILE_W as int), CHUNK_W as int);
        lemma_div_is_ordered(py as int / (TILE_W as int), 136_000_000_000, CHUNK_W as int);
    }
    let ox64 = chunk_coord(px);
    let oy64 = chunk_coord(py);
    let ox: i32 = ox64 as i32;
    let oy: i32 = oy64 as i32;
    let ghost wanted = wanted_ids(ox as int, oy as int);
    let mut out: Vec<(i32, i32)> = Vec::new();
    let mut k: usize = 0;
    while k < 16
        invariant
            k <= 16,
            -2_125_000_000 <= ox <= 2_125_000_000,
            -2_125_000_000 <= oy <= 2_125_000_000,
            wanted == wanted_ids(ox as int, oy as int),
            out@.map_values(|id: (i32, i32)| (id.0 as int, id.1 as int)) == missing_from(
                world@.chunks,
                wanted.take(k as int),
            ),
        decreases 16 - k,
    {
        let dx = (k / 4) as i32;
        let dy = (k % 4) as i32;
        let cx = ox - RENDER_DISTANCE + dx;
        let cy = oy - RENDER_DISTANCE + dy;
        let ghost prev = out@.map_values(|id: (i32, i32)| (id.0 as int, id.1 as int));
        if !world.has_chunk((cx, cy)) {
            out.push((cx, cy));
        }
        proof {
            assert(wanted.take(k as int + 1).drop_last() =~= wanted.take(k as int));
            assert(wanted.take(k as int + 1).last() == (cx as int, cy as int));
            assert(out@.map_values(|id: (i32, i32)| (id.0 as int, id.1 as int)) =~= missing_from(
                world@.chunks,
                wanted.take(k as int + 1),
            ));
        }
        k += 1;
    }
    proof {
        assert(wanted.take(16) =~= wanted);
    }
    out
}

/// What admitting one candidate does to the chunk list: nothing when the id
/// is already present — a chunk is never regenerated — else the pruned chunk
/// is appended, not yet materialized.
pub open spec fn spec_insert_one(
    chunks: Seq<ChunkModel>,
    id: (int, int),
    provisional: Set<(int, int)>,
) -> Seq<ChunkModel> {
    if has_id(chunks, id) {
        chunks
    } else {
        chunks.push(ChunkModel { id, map: spec_prune(provisional), is_rendered: false })
    }
}

/// What admitting a batch of candidates does: each id, in order, is admitted
/// with its provisional occupied set.
pub open spec fn spec_insert_all(
    chunks: Seq<ChunkModel>,
    ids: Seq<(int, int)>,
    provs: Seq<Set<(int, int)>>,
) -> Seq<ChunkModel>
    decreases ids.len(),
{
    if ids.len() == 0 {
        chunks
    } else {
        spec_insert_all(
            spec_insert_one(chunks, ids[0], provs[0]),
            ids.drop_first(),
            provs.drop_first(),
        )
    }
}

/// Admits one generated candidate: prunes its provisional occupied set and
/// appends the chunk, not yet materialized — unless a chunk with this id
/// already exists, in which case the world is untouched.
pub fn insert_chunk(world: &mut World, id: (i32, i32), provisional: &TileSet)
    requires
        old(world).wf(),
        provisional.wf(),
    ensures
        final(world).wf(),
        final(world).seed == old(world).seed,
        final(world)@.chunks == spec_insert_one(
            old(world)@.chunks,
            (id.0 as int, id.1 as int),
            provisional@,
        ),
{
    if !world.has_chunk(id) {
        let map = prune(provisional);
        world.chunks.push(Chunk { id, map, is_rendered: false });
        proof {
            assert(world@.chunks =~= spec_insert_one(
                old(world)@.chunks,
                (id.0 as int, id.1 as int),
                provisional@,
            ));
            let n = old(world)@.chunks.len() as int;
            assert forall|i: int, j: int|
                0 <= i < j < world.chunks@.len() implies world.chunks@[i]@.id
                != world.chunks@[j]@.id by {
                if j == n {
                    assert(world@.chunks[i].id == old(world)@.chunks[i].id);
                }
            }
        }
    }
}

/// Admits the batch of candidates `ids`, each paired with its provisional
/// occupied set, in order.
pub fn insert_chunks(world: &mut World, ids: &Vec<(i32, i32)>, provisional: &Vec<TileSet>)
    requires
        old(world).wf(),
        ids@.len() == provisional@.len(),
        forall|i: int| 0 <= i < provisional@.len() ==> (#[trigger] provisional@[i]).wf(),
    ensures
        final(world).wf(),
        final(world).seed == old(world).seed,
        final(world)@.chunks == spec_insert_all(
            old(world)@.chunks,
            ids@.map_values(|id: (i32, i32)| (id.0 as int, id.1 as int)),
            provisional@.map_values(|t: TileSet| t@),
        ),
{
    let ghost gids = ids@.map_values(|id: (i32, i32)| (id.0 as int, id.1 as int));
    let ghost gprovs = provisional@.map_values(|t: TileSet| t@);
    proof {
        assert(gids.skip(0) =~= gids);
        assert(gprovs.skip(0) =~= gprovs);
    }
    let mut k: usize = 0;
    while k < ids.len()
        invariant
            world.wf(),
            world.seed == old(world).seed,
            k <= ids@.len(),
            ids@.len() == provisional@.len(),
            forall|i: int| 0 <= i < provisional@.len() ==> (#[trigger] provisional@[i]).wf(),
            gids == ids@.map_values(|id: (i32, i32)| (id.0 as int, id.1 as int)),
            gprovs == provisional@.map_values(|t: TileSet| t@),
            spec_insert_all(world@.chunks, gids.skip(k as int), gprovs.skip(k as int))
                == spec_insert_all(old(world)@.chunks, gids, gprovs),
        decreases ids@.len() - k,
    {
        let ghost before = world@.chunks;
        let id = ids[k];
        insert_chunk(world, id, &provisional[k]);
        proof {
            assert(gids.skip(k as int).drop_first() =~= gids.skip(k as int + 1));
            assert(gprovs.skip(k as int).drop_first() =~= gprovs.skip(k as int + 1));
            assert(gids.skip(k as int)[0] == gids[k as int]);
            assert(gprovs.skip(k as int)[0] == gprovs[k as int]);
            assert(world@.chunks == spec_insert_one(before, gids[k as int], gprovs[k as int]));
        }
        k += 1;
    }
    proof {
        assert(gids.skip(gids.len() as int) =~= Seq::<(int, int)>::empty());
    }
}

/// A chunk id present before an admission is present after it.
proof fn lemma_insert_one_preserves(
    chunks: Seq<ChunkModel>,
    id: (int, int),
    prov: Set<(int, int)>,
    x: (int, int),
)
    requires
        has_id(chunks, x),
    ensures
        has_id(spec_insert_one(chunks, id, prov), x),
{
    let i = choose|i: int| 0 <= i < chunks.len() && chunks[i].id == x;
    assert(spec_insert_one(chunks, id, prov)[i].id == x);
}

/// A chunk id present before a batch admission is present after it.
proof fn lemma_insert_all_preserves(
    chunks: Seq<ChunkModel>,
    ids: Seq<(int, int)>,
    provs: Seq<Set<(int, int)>>,
    x: (int, int),
)
    requires
        has_id(chunks, x),
    ensures
        has_id(spec_insert_all(chunks, ids, provs), x),
    decreases ids.len(),
{
    if ids.len() > 0 {
        lemma_insert_one_preserves(chunks, ids[0], provs[0], x);
        lemma_insert_all_preserves(
            spec_insert_one(chunks, ids[0], provs[0]),
            ids.drop_first(),
            provs.drop_first(),
            x,
        );
    }
}

/// After a batch admission, every id of the batch is present.
proof fn lemma_insert_all_covers(
    chunks: Seq<ChunkModel>,
    ids: Seq<(int, int)>,
    provs: Seq<Set<(int, int)>>,
)
    ensures
        forall|j: int|
            0 <= j < ids.len() ==> has_id(spec_insert_all(chunks, ids, provs), ids[j]),
    decreases ids.len(),
{
    if ids.len() > 0 {
        let next = spec_insert_one(chunks, ids[0], provs[0]);
        if !has_id(chunks, ids[0]) {
            assert(next[chunks.len() as int].id == ids[0]);
        }
        assert(has_id(next, ids[0]));
        lemma_insert_all_preserves(next, ids.drop_first(), provs.drop_first(), ids[0]);
        lemma_insert_all_covers(next, ids.drop_first(), provs.drop_first());
        assert forall|j: int|
            0 <= j < ids.len() implies has_id(spec_insert_all(chunks, ids, provs), ids[j]) by {
            if j > 0 {
                assert(ids.drop_first()[j - 1] == ids[j]);
            }
        }
    }
}

/// When every id of `ids` is present in `chunks`, nothing is missing.
proof fn lemma_missing_of_covered(chunks: Seq<ChunkModel>, ids: Seq<(int, int)>)
    requires
        forall|j: int| 0 <= j < ids.len() ==> has_id(chunks, ids[j]),
    ensures
        missing_from(chunks, ids) == Seq::<(int, int)>::empty(),
    decreases ids.len(),
{
    if ids.len() > 0 {
        lemma_missing_of_covered(chunks, ids.drop_last());
        assert(has_id(chunks, ids.last()));
    }
}

/// An id of `ids` that is absent from `chunks` occurs in the missing list.
proof fn lemma_missing_members(chunks: Seq<ChunkModel>, ids: Seq<(int, int)>, j: int)
    requires
        0 <= j < ids.len(),
        !has_id(chunks, ids[j]),
    ensures
        exists|m: int|
            0 <= m < missing_from(chunks, ids).len() && missing_from(chunks, ids)[m] == ids[j],
    decreases ids.len(),
{
    let miss = missing_from(chunks, ids);
    if j == ids.len() - 1 {
        assert(miss[miss.len() - 1] == ids[j]);
    } else {
        lemma_missing_members(chunks, ids.drop_last(), j);
        let prev = missing_from(chunks, ids.drop_last());
        let m = choose|m: int| 0 <= m < prev.len() && prev[m] == ids.drop_last()[j];
        assert(ids.drop_last()[j] == ids[j]);
        assert(miss[m] == ids[j]);
    }
}

/// Streaming is idempotent: once the candidates found missing around an
/// observer position have been admitted — whatever provisional sets were
/// generated for them — the same window finds nothing missing, so a second
/// tick at an unchanged position admits nothing and leaves the world, and
/// in particular its chunk count, unchanged.
pub proof fn lemma_streaming_idempotent(
    chunks: Seq<ChunkModel>,
    ocx: int,
    ocy: int,
    provs: Seq<Set<(int, int)>>,
)
    ensures
        ({
            let wanted = wanted_ids(ocx, ocy);
            let after = spec_insert_all(chunks, missing_from(chunks, wanted), provs);
            missing_from(after, wanted) == Seq::<(int, int)>::empty() && spec_insert_all(
                after,
                missing_from(after, wanted),
                Seq::empty(),
            ) == after
        }),
{
    let wanted = wanted_ids(ocx, ocy);
    let miss = missing_from(chunks, wanted);
    let after = spec_insert_all(chunks, miss, provs);
    assert forall|j: int| 0 <= j < wanted.len() implies has_id(after, wanted[j]) by {
        if has_id(chunks, wanted[j]) {
            lemma_insert_all_preserves(chunks, miss, provs, wanted[j]);
        } else {
            lemma_missing_members(chunks, wanted, j);
            let m = choose|m: int| 0 <= m < miss.len() && miss[m] == wanted[j];
            lemma_insert_all_covers(chunks, miss, provs);
            assert(has_id(after, miss[m]));
        }
    }
    lemma_missing_of_covered(after, wanted);
}

/// Chunks already generated are never touched by streaming: after a batch
/// admission they stand unchanged, in order, as a prefix of the chunk list.
pub proof fn lemma_streaming_preserves_prefix(
    chunks: Seq<ChunkModel>,
    ids: Seq<(int, int)>,
    provs: Seq<Set<(int, int)>>,
)
    ensures
        spec_insert_all(chunks, ids, provs).take(chunks.len() as int) == chunks,
    decreases ids.len(),
{
    let result = spec_insert_all(chunks, ids, provs);
    if ids.len() == 0 {
        assert(result.take(chunks.len() as int) =~= chunks);
    } else {
        let next = spec_insert_one(chunks, ids[0], provs[0]);
        lemma_streaming_preserves_prefix(next, ids.drop_first(), provs.drop_first());
        lemma_streaming_monotonic(next, ids.drop_first(), provs.drop_first());
        assert forall|i: int| 0 <= i < chunks.len() implies result[i] == chunks[i] by {
            assert(result.take(next.len() as int)[i] == result[i]);
            assert(next[i] == chunks[i]);
        }
        assert(result.take(chunks.len() as int) =~= chunks);
    }
}

/// Admitting candidates never removes a chunk: the chunk count after a batch
/// admission is at least the count before it.
pub proof fn lemma_streaming_monotonic(
    chunks: Seq<ChunkModel>,
    ids: Seq<(int, int)>,
    provs: Seq<Set<(int, int)>>,
)
    ensures
        spec_insert_all(chunks, ids, provs).len() >= chunks.len(),
    decreases ids.len(),
{
    if ids.len() > 0 {
        lemma_streaming_monotonic(
            spec_insert_one(chunks, ids[0], provs[0]),
            ids.drop_first(),
            provs.drop_first(),
        );
    }
}

} // verus!
