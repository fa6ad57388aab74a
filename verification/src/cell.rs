//! A single grid cell: a liveness flag plus the live-neighbor count computed
//! for the current generation, and the per-cell Life transition rule.

use vstd::prelude::*;

verus! {

/// The Life transition rule (B3/S23): a cell is live in the next generation
/// exactly when it has three live neighbors, or has two live neighbors and is
/// live already. Every other combination yields a dead cell.
pub open spec fn next_state(count: int, live: bool) -> bool {
    count == 3 || (count == 2 && live)
}

/// One cell of the board. `neighbor_count` is only meaningful right after a
/// neighbor-count refresh; it is overwritten by the next refresh.
#[derive(Clone, Copy, Debug)]
pub struct Cell {
    pub live: bool,
    pub neighbor_count: u8,
}

impl Cell {
    /// A cell's neighbor count never exceeds the eight neighbors it has.
    pub open spec fn wf(self) -> bool {
        self.neighbor_count <= 8
    }

    /// A fresh cell: dead, with no live neighbors recorded.
    pub fn new() -> (c: Cell)
        ensures
            c.live == false,
            c.neighbor_count == 0,
            c.wf(),
    {
        Cell { live: false, neighbor_count: 0 }
    }

    /// Turns the cell live; the recorded neighbor count is untouched.
    pub fn on(&mut self)
        ensures
            final(self).live == true,
            final(self).neighbor_count == old(self).neighbor_count,
    {
        self.live = true;
    }

    /// The cell's liveness in the next generation, per the B3/S23 rule applied
    /// to its recorded neighbor count and current liveness.
    pub fn next_life_state(&self) -> (r: bool)
        ensures
            r == next_state(self.neighbor_count as int, self.live),
    {
        if self.neighbor_count == 3 {
            true
        } else if self.neighbor_count == 2 && self.live {
            true
        } else {
            false
        }
    }

    /// Advances the cell in place: liveness becomes the next generation's,
    /// computed from the recorded neighbor count; the count is untouched.
    pub fn update_life_state(&mut self)
        ensures
            final(self).live == next_state(old(self).neighbor_count as int, old(self).live),
            final(self).neighbor_count == old(self).neighbor_count,
    {
        self.live = self.next_life_state();
    }
}

} // verus!
