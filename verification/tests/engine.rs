use noise::NoiseFn;
use terrain::classify::{get_tile, kind_of, TileKind, VARIANT_INVALID, VARIANT_UNKNOWN};
use terrain::emit::{materialize, Placement};
use terrain::gen::prune;
use terrain::stream::{insert_chunk, insert_chunks, missing_chunks};
use terrain::tiles::TileSet;
use terrain::world::World;

/// Provisional occupied set of one chunk, sampled from the Perlin field the
/// way the application samples it: offset 0.3, scale 12.5, cutoff 0.10.
fn sample_chunk(seed: u32, id: (i32, i32)) -> TileSet {
    let perlin = noise::Perlin::new(seed);
    let mut tiles = TileSet::new();
    let offset_x = id.0 * 64;
    let offset_y = id.1 * 64;
    for x in 0..64i32 {
        for y in 0..64i32 {
            let value = perlin.get([
                (x as f64 + offset_x as f64 + 0.3) / 12.5,
                (y as f64 + offset_y as f64 + 0.3) / 12.5,
            ]);
            if value >= 0.10 {
                tiles.insert(x as usize, y as usize);
            }
        }
    }
    tiles
}

fn set_of(coords: &[(usize, usize)]) -> TileSet {
    let mut t = TileSet::new();
    for &(x, y) in coords {
        t.insert(x, y);
    }
    t
}

fn run_tick(world: &mut World, px: i64, py: i64) -> Vec<Placement> {
    let ids = missing_chunks(world, px, py);
    let mut provs: Vec<TileSet> = Vec::new();
    let seed = world.seed;
    for id in &ids {
        provs.push(sample_chunk(seed, *id));
    }
    insert_chunks(world, &ids, &provs);
    materialize(world)
}

#[test]
fn classify_isolated_tile_is_variant_five() {
    let occupied = set_of(&[(1, 1)]);
    assert_eq!(get_tile(1, 1, &occupied), 5);
}

#[test]
fn classify_three_edges_is_unknown() {
    let occupied = set_of(&[(1, 1), (2, 1)]);
    assert_eq!(get_tile(1, 1, &occupied), VARIANT_UNKNOWN);
    assert_eq!(get_tile(2, 1, &occupied), VARIANT_UNKNOWN);
}

#[test]
fn classify_interior_and_corners_of_a_block() {
    // A 2x2 block: every tile is an outer corner.
    let occupied = set_of(&[(1, 1), (2, 1), (1, 2), (2, 2)]);
    assert_eq!(get_tile(1, 1, &occupied), 4);
    assert_eq!(get_tile(2, 1, &occupied), 3);
    assert_eq!(get_tile(1, 2, &occupied), 1);
    assert_eq!(get_tile(2, 2, &occupied), 2);
    // The center of a plus shape is fully interior.
    let plus = set_of(&[(2, 1), (1, 1), (3, 1), (2, 2), (2, 0)]);
    assert_eq!(get_tile(2, 1, &plus), 0);
}

#[test]
fn classify_single_edge_is_invalid() {
    // (2, 1) has west, north and south present and only east absent.
    let occupied = set_of(&[(2, 1), (1, 1), (2, 2), (2, 0)]);
    assert_eq!(get_tile(2, 1, &occupied), VARIANT_INVALID);
}

#[test]
fn classify_covers_all_sixteen_patterns() {
    // Build, for each 4-bit pattern, a neighborhood of (1, 1) whose absent
    // neighbors are exactly the pattern's bits (west, north, east, south).
    let expected = [
        0, -1, -1, 3, -1, -2, 2, -2, -1, 4, -2, -2, 1, -2, -2, 5,
    ];
    for mask in 0..16usize {
        let mut coords: Vec<(usize, usize)> = vec![(1, 1)];
        if mask & 8 == 0 {
            coords.push((0, 1));
        }
        if mask & 4 == 0 {
            coords.push((1, 2));
        }
        if mask & 2 == 0 {
            coords.push((2, 1));
        }
        if mask & 1 == 0 {
            coords.push((1, 0));
        }
        let occupied = set_of(&coords);
        assert_eq!(get_tile(1, 1, &occupied), expected[mask], "pattern {}", mask);
    }
}

#[test]
fn classify_sees_chunk_borders_as_edges() {
    // Neighbor lookups never leave the chunk's own occupied set, so a tile
    // on the border sees the outward direction as an edge.
    let occupied = set_of(&[(0, 0), (1, 0)]);
    // (0, 0): only east is present; west, north and south read as edges.
    assert_eq!(get_tile(0, 0, &occupied), VARIANT_UNKNOWN);
    let corner = set_of(&[(63, 63), (62, 63), (63, 62), (62, 62)]);
    // (63, 63): east and north leave the chunk, west and south are present.
    assert_eq!(get_tile(63, 63, &corner), 2);
}

#[test]
fn kind_mapping_sends_sentinels_to_grass() {
    assert_eq!(kind_of(1), TileKind::Corner1);
    assert_eq!(kind_of(2), TileKind::Corner2);
    assert_eq!(kind_of(3), TileKind::Corner3);
    assert_eq!(kind_of(4), TileKind::Corner4);
    assert_eq!(kind_of(0), TileKind::Grass);
    assert_eq!(kind_of(5), TileKind::Grass);
    assert_eq!(kind_of(VARIANT_INVALID), TileKind::Grass);
    assert_eq!(kind_of(VARIANT_UNKNOWN), TileKind::Grass);
}

#[test]
fn prune_removes_single_edge_tiles_only() {
    // (2, 1) classifies invalid against the provisional set and is removed;
    // the others stay, even though (2, 0) and (2, 2) lose their neighbor in
    // the same pass (single-pass residue).
    let provisional = set_of(&[(1, 1), (2, 1), (2, 2), (2, 0)]);
    let pruned = prune(&provisional);
    let expected = set_of(&[(1, 1), (2, 2), (2, 0)]);
    assert!(pruned.equals(&expected));
}

#[test]
fn prune_keeps_isolated_tiles() {
    let provisional = set_of(&[(1, 1)]);
    let pruned = prune(&provisional);
    assert!(pruned.equals(&provisional));
}

#[test]
fn prune_result_is_subset() {
    let provisional = sample_chunk(42, (0, 0));
    let pruned = prune(&provisional);
    for x in 0..64i64 {
        for y in 0..64i64 {
            if pruned.contains_at(x, y) {
                assert!(provisional.contains_at(x, y));
            }
        }
    }
}

#[test]
fn generation_is_deterministic_for_seed_42() {
    // Sampling chunk (0, 0) of seed 42 twice and pruning yields identical
    // occupied sets.
    let first = prune(&sample_chunk(42, (0, 0)));
    let second = prune(&sample_chunk(42, (0, 0)));
    assert!(first.equals(&second));
}

#[test]
fn generation_is_deterministic_across_worlds() {
    let mut w1 = World::new(42);
    let mut w2 = World::new(42);
    run_tick(&mut w1, 0, 0);
    run_tick(&mut w2, 0, 0);
    assert_eq!(w1.chunk_count(), w2.chunk_count());
    for i in 0..w1.chunks.len() {
        assert_eq!(w1.chunks[i].id, w2.chunks[i].id);
        assert!(w1.chunks[i].map.equals(&w2.chunks[i].map));
    }
}

#[test]
fn window_around_origin_is_the_half_open_square() {
    let world = World::new(7);
    let ids = missing_chunks(&world, 0, 0);
    let mut expected: Vec<(i32, i32)> = Vec::new();
    for dx in -2..2i32 {
        for dy in -2..2i32 {
            expected.push((dx, dy));
        }
    }
    assert_eq!(ids, expected);
}

#[test]
fn window_floors_negative_positions() {
    // Position (-1, -1) lies in tile (-1, -1), hence in chunk (-1, -1):
    // division toward negative infinity, not truncation.
    let world = World::new(7);
    let ids = missing_chunks(&world, -1, -1);
    assert_eq!(ids[0], (-3, -3));
    assert!(ids.contains(&(0, 0)));
    assert!(!ids.contains(&(1, 1)));
    assert_eq!(ids.len(), 16);
}

#[test]
fn streaming_adds_the_window_once() {
    let mut world = World::new(42);
    run_tick(&mut world, 0, 0);
    assert_eq!(world.chunk_count(), 16);
    assert!(world.has_chunk((-2, -2)));
    assert!(world.has_chunk((1, 1)));
    assert!(!world.has_chunk((2, 2)));
    // An unchanged observer position adds nothing.
    run_tick(&mut world, 0, 0);
    assert_eq!(world.chunk_count(), 16);
    assert!(missing_chunks(&world, 0, 0).is_empty());
}

#[test]
fn chunk_count_never_decreases() {
    let mut world = World::new(42);
    let mut last = 0;
    for step in 0..6i64 {
        run_tick(&mut world, step * 1600, -step * 750);
        let count = world.chunk_count();
        assert!(count >= last);
        last = count;
    }
}

#[test]
fn duplicate_insert_leaves_world_untouched() {
    let mut world = World::new(9);
    let provisional = set_of(&[(1, 1), (5, 5)]);
    insert_chunk(&mut world, (3, 4), &provisional);
    assert_eq!(world.chunk_count(), 1);
    let other = set_of(&[(7, 7)]);
    insert_chunk(&mut world, (3, 4), &other);
    assert_eq!(world.chunk_count(), 1);
    assert!(world.chunks[0].map.contains_at(1, 1));
    assert!(!world.chunks[0].map.contains_at(7, 7));
}

#[test]
fn materialize_emits_each_chunk_once() {
    let mut world = World::new(9);
    let provisional = set_of(&[(2, 3)]);
    insert_chunk(&mut world, (1, 1), &provisional);
    let first = materialize(&mut world);
    assert_eq!(
        first,
        vec![Placement { x: 2 * 50 + 64 * 50, y: 3 * 50 + 64 * 50, kind: TileKind::Grass }]
    );
    let second = materialize(&mut world);
    assert!(second.is_empty());
    // A later chunk is emitted by the next pass, the old one is not.
    insert_chunk(&mut world, (0, 0), &set_of(&[(0, 0)]));
    let third = materialize(&mut world);
    assert_eq!(third, vec![Placement { x: 0, y: 0, kind: TileKind::Grass }]);
}

#[test]
fn materialize_emits_one_placement_per_occupied_tile() {
    let mut world = World::new(9);
    insert_chunk(&mut world, (0, 0), &set_of(&[(2, 1), (1, 1)]));
    let placements = materialize(&mut world);
    assert_eq!(placements.len(), 2);
    assert!(placements.contains(&Placement { x: 50, y: 50, kind: TileKind::Grass }));
    assert!(placements.contains(&Placement { x: 100, y: 50, kind: TileKind::Grass }));
}

#[test]
fn random_seed_is_in_documented_range() {
    for _ in 0..32 {
        let world = World::with_random_seed();
        assert!((10000..99999).contains(&world.seed));
        assert_eq!(world.chunk_count(), 0);
    }
}

#[test]
fn tile_set_membership_and_equality() {
    let mut a = TileSet::new();
    assert!(!a.contains_at(0, 0));
    assert!(!a.contains_at(-1, 5));
    assert!(!a.contains_at(64, 5));
    a.insert(0, 0);
    a.insert(63, 63);
    assert!(a.contains_at(0, 0));
    assert!(a.contains_at(63, 63));
    let b = set_of(&[(63, 63), (0, 0)]);
    assert!(a.equals(&b));
    let c = set_of(&[(0, 0)]);
    assert!(!a.equals(&c));
}
