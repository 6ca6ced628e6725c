use vstd::prelude::*;
use crate::classify::{get_tile, spec_classify, VARIANT_INVALID};
use crate::tiles::TileSet;

verus! {

/// What the pruning pass keeps: the members of `s` whose classification
/// against `s` itself is not the invalid single-edge sentinel. The pass is a
/// single sweep over a snapshot of `s` — removals never re-evaluate the
/// removed tile's neighbors, so tiles that become isolated by a neighbor's
/// removal stay in the set; that residue is intended generation texture.
pub open spec fn spec_prune(s: Set<(int, int)>) -> Set<(int, int)> {
    s.filter(|t: (int, int)| spec_classify(s, t.0, t.1) != VARIANT_INVALID as int)
}

/// Tiles of the 64x64 domain that precede `(x, y)` in the sweep order
/// (column-major on x, then y).
spec fn swept_before(t: (int, int), x: int, y: int) -> bool {
    t.0 < x || (t.0 == x && t.1 < y)
}

/// The part of the pruned set whose sweep position precedes `(x, y)`.
spec fn prune_prefix(s: Set<(int, int)>, x: int, y: int) -> Set<(int, int)> {
    spec_prune(s).filter(|t: (int, int)| swept_before(t, x, y))
}

/// The pruning pass of the chunk generator: drops every provisional tile
/// that classifies as the invalid sentinel against the provisional set
/// itself, and keeps everything else.
pub fn prune(provisional: &TileSet) -> (r: TileSet)
    requires
        provisional.wf(),
    ensures
        r.wf(),
        r@ == spec_prune(provisional@),
{
    proof {
        provisional.lemma_members_in_domain();
    }
    let ghost s = provisional@;
    let mut r = TileSet::new();
    let mut x: usize = 0;
    while x < 64
        invariant
            provisional.wf(),
            r.wf(),
            x <= 64,
            s == provisional@,
            r@ == prune_prefix(s, x as int, 0),
            forall|t: (int, int)| s.contains(t) ==> 0 <= t.0 < 64 && 0 <= t.1 < 64,
        decreases 64 - x,
    {
        let mut y: usize = 0;
        while y < 64
            invariant
                provisional.wf(),
                r.wf(),
                x < 64,
                y <= 64,
                s == provisional@,
                r@ == prune_prefix(s, x as int, y as int),
                forall|t: (int, int)| s.contains(t) ==> 0 <= t.0 < 64 && 0 <= t.1 < 64,
            decreases 64 - y,
        {
            if provisional.contains_at(x as i64, y as i64) && get_tile(
                x as i64,
                y as i64,
                provisional,
            ) != VARIANT_INVALID {
                r.insert(x, y);
                proof {
                    assert(r@ =~= prune_prefix(s, x as int, y as int + 1));
                }
            } else {
                proof {
                    assert(r@ =~= prune_prefix(s, x as int, y as int + 1));
                }
            }
            y += 1;
        }
        proof {
            assert(prune_prefix(s, x as int, 64) =~= prune_prefix(s, x as int + 1, 0));
        }
        x += 1;
    }
    proof {
        assert(r@ =~= spec_prune(s));
    }
    r
}

/// Pruning reduces or preserves the provisional set, never grows it: the
/// pruned set is a subset of the set it was pruned from.
pub proof fn lemma_prune_subset(s: Set<(int, int)>)
    ensures
        spec_prune(s).subset_of(s),
{
}

} // verus!
