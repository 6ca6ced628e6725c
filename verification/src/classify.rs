use vstd::prelude::*;
use crate::tiles::TileSet;

verus! {

/// Variant of a tile whose four axis neighbors are all occupied.
pub const VARIANT_INTERIOR: i32 = 0;

/// Variant of a tile with no occupied axis neighbor; drawn as plain fill.
pub const VARIANT_ISOLATED: i32 = 5;

/// Sentinel for a geometrically invalid single-edge tile (exactly one
/// neighbor absent); the pruning pass removes such tiles.
pub const VARIANT_INVALID: i32 = -1;

/// Sentinel for an unclassified neighbor pattern (two opposite neighbors
/// absent, or exactly three absent); resolved to plain fill when drawn.
pub const VARIANT_UNKNOWN: i32 = -2;

/// One bit per axis neighbor: 1 when the neighbor coordinate is absent from
/// the occupied set (an edge faces that direction), 0 when it is present.
pub open spec fn edge_bit(occupied: Set<(int, int)>, x: int, y: int) -> int {
    if occupied.contains((x, y)) {
        0
    } else {
        1
    }
}

/// The 4-bit neighbor pattern at `(x, y)`, in the fixed order west, north,
/// east, south, with west the most significant bit.
pub open spec fn neighbor_mask(occupied: Set<(int, int)>, x: int, y: int) -> int {
    8 * edge_bit(occupied, x - 1, y) + 4 * edge_bit(occupied, x, y + 1) + 2 * edge_bit(
        occupied,
        x + 1,
        y,
    ) + edge_bit(occupied, x, y - 1)
}

/// The exhaustive variant table, keyed by the 4-bit neighbor pattern.
/// Patterns with two adjacent edges are the four outer corners; no edge is
/// interior; four edges is isolated; exactly one edge is the invalid
/// sentinel; the remaining six patterns are the unknown sentinel.
pub open spec fn variant_of(mask: int) -> int {
    if mask == 12 {
        1
    } else if mask == 6 {
        2
    } else if mask == 3 {
        3
    } else if mask == 9 {
        4
    } else if mask == 15 {
        VARIANT_ISOLATED as int
    } else if mask == 0 {
        VARIANT_INTERIOR as int
    } else if mask == 8 || mask == 4 || mask == 2 || mask == 1 {
        VARIANT_INVALID as int
    } else {
        VARIANT_UNKNOWN as int
    }
}

/// What `get_tile` returns: the variant of the neighbor pattern of `(x, y)`
/// in `occupied`.
pub open spec fn spec_classify(occupied: Set<(int, int)>, x: int, y: int) -> int {
    variant_of(neighbor_mask(occupied, x, y))
}

/// Classifies the tile at `(x, y)` against `occupied`: derives the 4-bit
/// edge pattern from the four axis neighbors and maps it through the variant
/// table. Total: every pattern yields a variant or a sentinel.
///
/// The lookup's scope is a single chunk's occupied set, never an adjacent
/// chunk's, so tiles at a chunk border always see the outward neighbor as
/// absent — a deliberate limitation that shows as seams between chunks.
pub fn get_tile(x: i64, y: i64, occupied: &TileSet) -> (v: i32)
    requires
        occupied.wf(),
        i64::MIN < x < i64::MAX,
        i64::MIN < y < i64::MAX,
    ensures
        v == spec_classify(occupied@, x as int, y as int),
{
    let mut mask: u8 = 0;
    if !occupied.contains_at(x - 1, y) {
        mask += 8;
    }
    if !occupied.contains_at(x, y + 1) {
        mask += 4;
    }
    if !occupied.contains_at(x + 1, y) {
        mask += 2;
    }
    if !occupied.contains_at(x, y - 1) {
        mask += 1;
    }
    assert(mask as int == neighbor_mask(occupied@, x as int, y as int));
    if mask == 12 {
        1
    } else if mask == 6 {
        2
    } else if mask == 3 {
        3
    } else if mask == 9 {
        4
    } else if mask == 15 {
        VARIANT_ISOLATED
    } else if mask == 0 {
        VARIANT_INTERIOR
    } else if mask == 8 || mask == 4 || mask == 2 || mask == 1 {
        VARIANT_INVALID
    } else {
        VARIANT_UNKNOWN
    }
}

/// Symbolic tile kind selected from a variant id; the rendering collaborator
/// maps each kind to an asset.
#[derive(Clone, Copy, PartialEq, Eq, Structural, Debug)]
pub enum TileKind {
    Corner1,
    Corner2,
    Corner3,
    Corner4,
    Grass,
}

/// What `kind_of` returns: corner kinds for variants 1 through 4, plain
/// fill for everything else, the sentinels included.
pub open spec fn spec_kind_of(variant: int) -> TileKind {
    if variant == 1 {
        TileKind::Corner1
    } else if variant == 2 {
        TileKind::Corner2
    } else if variant == 3 {
        TileKind::Corner3
    } else if variant == 4 {
        TileKind::Corner4
    } else {
        TileKind::Grass
    }
}

/// Maps a variant id to the symbolic tile kind drawn for it.
pub fn kind_of(variant: i32) -> (k: TileKind)
    ensures
        k == spec_kind_of(variant as int),
{
    if variant == 1 {
        TileKind::Corner1
    } else if variant == 2 {
        TileKind::Corner2
    } else if variant == 3 {
        TileKind::Corner3
    } else if variant == 4 {
        TileKind::Corner4
    } else {
        TileKind::Grass
    }
}

/// The classifier is total over the 16 neighbor patterns: exactly four
/// patterns (the adjacent-edge pairs) map to the corner variants 1 through 4,
/// exactly one to interior, exactly one to isolated, the four single-edge
/// patterns to the invalid sentinel, and the remaining six patterns (the two
/// opposite-edge pairs and the four triples) to the unknown sentinel.
pub proof fn lemma_classifier_totality()
    ensures
        forall|m: int|
            0 <= m < 16 ==> (1 <= variant_of(m) <= 4 || variant_of(m) == VARIANT_INTERIOR as int
                || variant_of(m) == VARIANT_ISOLATED as int || variant_of(m)
                == VARIANT_INVALID as int || variant_of(m) == VARIANT_UNKNOWN as int),
        (Set::new(|m: int| 0 <= m < 16 && 1 <= variant_of(m) <= 4)) =~= set![12int, 6, 3, 9],
        (Set::new(|m: int| 0 <= m < 16 && variant_of(m) == VARIANT_INTERIOR as int)) =~= set![
            0int,
        ],
        (Set::new(|m: int| 0 <= m < 16 && variant_of(m) == VARIANT_ISOLATED as int)) =~= set![
            15int,
        ],
        (Set::new(|m: int| 0 <= m < 16 && variant_of(m) == VARIANT_INVALID as int)) =~= set![
            8int,
            4,
            2,
            1,
        ],
        (Set::new(|m: int| 0 <= m < 16 && variant_of(m) == VARIANT_UNKNOWN as int)) =~= set![
            5int,
            7,
            10,
            11,
            13,
            14,
        ],
        (Set::new(|m: int| 0 <= m < 16 && 1 <= variant_of(m) <= 4)).len() == 4,
        (Set::new(|m: int| 0 <= m < 16 && variant_of(m) == VARIANT_INVALID as int)).len() == 4,
        (Set::new(|m: int| 0 <= m < 16 && variant_of(m) == VARIANT_UNKNOWN as int)).len() == 6,
{
    broadcast use vstd::set::group_set_axioms;

    let corners: Set<int> = set![12int, 6, 3, 9];
    let invalid: Set<int> = set![8int, 4, 2, 1];
    let unknown: Set<int> = set![5int, 7, 10, 11, 13, 14];
    assert(corners.len() == 4);
    assert(invalid.len() == 4);
    assert(unknown.len() == 6);
    assert((Set::new(|m: int| 0 <= m < 16 && 1 <= variant_of(m) <= 4)) =~= corners);
    assert((Set::new(|m: int| 0 <= m < 16 && variant_of(m) == VARIANT_INVALID as int)) =~= invalid);
    assert((Set::new(|m: int| 0 <= m < 16 && variant_of(m) == VARIANT_UNKNOWN as int)) =~= unknown);
}

} // verus!
