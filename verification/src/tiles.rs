use vstd::prelude::*;

verus! {

/// The set of occupied ("land") local tile coordinates of one chunk, stored
/// as a 64x64 occupancy grid. Cell `(x, y)` of the grid sits at index
/// `x * 64 + y`.
pub struct TileSet {
    grid: Vec<bool>,
}

impl View for TileSet {
    type V = Set<(int, int)>;

    /// The mathematical set of occupied local coordinates; every member lies
    /// in `[0, 64) x [0, 64)`.
    closed spec fn view(&self) -> Set<(int, int)> {
        Set::new(
            |t: (int, int)|
                0 <= t.0 < 64 && 0 <= t.1 < 64 && self.grid@[t.0 * 64 + t.1],
        )
    }
}

impl TileSet {
    /// The grid always covers exactly the 64x64 local-coordinate domain.
    pub closed spec fn wf(self) -> bool {
        self.grid@.len() == 4096
    }

    /// The empty tile set.
    pub fn new() -> (r: TileSet)
        ensures
            r.wf(),
            r@ == Set::<(int, int)>::empty(),
    {
        let mut grid: Vec<bool> = Vec::new();
        while grid.len() < 4096
            invariant
                grid@.len() <= 4096,
                forall|i: int| 0 <= i < grid@.len() ==> !grid@[i],
            decreases 4096 - grid@.len(),
        {
            grid.push(false);
        }
        let r = TileSet { grid };
        proof {
            assert(r@ =~= Set::<(int, int)>::empty());
        }
        r
    }

    /// Every member of the set lies in the 64x64 local-coordinate domain.
    pub proof fn lemma_members_in_domain(&self)
        ensures
            forall|t: (int, int)| self@.contains(t) ==> 0 <= t.0 < 64 && 0 <= t.1 < 64,
    {
    }

    /// Membership test; coordinates outside the 64x64 domain are never
    /// occupied.
    pub fn contains_at(&self, x: i64, y: i64) -> (r: bool)
        requires
            self.wf(),
        ensures
            r == self@.contains((x as int, y as int)),
    {
        if x < 0 || x >= 64 || y < 0 || y >= 64 {
            false
        } else {
            let idx: usize = (x * 64 + y) as usize;
            self.grid[idx]
        }
    }

    /// Marks local coordinate `(x, y)` as occupied.
    pub fn insert(&mut self, x: usize, y: usize)
        requires
            old(self).wf(),
            x < 64,
            y < 64,
        ensures
            final(self).wf(),
            final(self)@ == old(self)@.insert((x as int, y as int)),
    {
        let idx: usize = x * 64 + y;
        self.grid[idx] = true;
        proof {
            assert forall|t: (int, int)|
                self@.contains(t) == old(self)@.insert((x as int, y as int)).contains(t) by {
                if 0 <= t.0 < 64 && 0 <= t.1 < 64 && t != (x as int, y as int) {
                    assert(t.0 * 64 + t.1 != x as int * 64 + y as int);
                }
            }
            assert(self@ =~= old(self)@.insert((x as int, y as int)));
        }
    }

    /// Whether the two sets hold exactly the same coordinates.
    pub fn equals(&self, other: &TileSet) -> (r: bool)
        requires
            self.wf(),
            other.wf(),
        ensures
            r == (self@ == other@),
    {
        let mut i: usize = 0;
        while i < 4096
            invariant
                self.wf(),
                other.wf(),
                i <= 4096,
                forall|j: int| 0 <= j < i ==> self.grid@[j] == other.grid@[j],
            decreases 4096 - i,
        {
            if self.grid[i] != other.grid[i] {
                proof {
                    let t = ((i as int) / 64, (i as int) % 64);
                    assert(t.0 * 64 + t.1 == i as int);
                    assert(self@.contains(t) != other@.contains(t));
                }
                return false;
            }
            i += 1;
        }
        proof {
            assert forall|t: (int, int)|
                self@.contains(t) == other@.contains(t) by {
                if 0 <= t.0 < 64 && 0 <= t.1 < 64 {
                    assert(0 <= t.0 * 64 + t.1 < 4096);
                }
            }
            assert(self@ =~= other@);
        }
        true
    }
}

} // verus!
