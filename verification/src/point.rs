//! Toroidal coordinate arithmetic: grid positions and single-step wraparound
//! along one axis.

use vstd::prelude::*;

verus! {

/// The index reached from `coord` after moving `delta` steps along one axis of
/// a toroidal grid with `size` cells per side: `(coord + delta) mod size`,
/// normalized into `[0, size)`.
pub open spec fn wrap_index(coord: int, delta: int, size: int) -> int {
    if coord + delta < 0 {
        coord + delta + size
    } else if coord + delta >= size {
        coord + delta - size
    } else {
        coord + delta
    }
}

/// A grid position; both axes lie in `[0, size)` for the board that uses it.
#[derive(Clone, Copy, Debug)]
pub struct Point {
    pub x: usize,
    pub y: usize,
}

impl Point {
    /// Moves `x` by `dx` along one axis, wrapping toroidally modulo `size`.
    pub fn value_with_offset(x: usize, dx: i8, size: usize) -> (r: usize)
        requires
            1 <= size,
            x < size,
            -1 <= dx <= 1,
        ensures
            r == wrap_index(x as int, dx as int, size as int),
            r < size,
    {
        if dx == -1 {
            if x == 0 {
                size - 1
            } else {
                x - 1
            }
        } else if dx == 1 {
            if x == size - 1 {
                0
            } else {
                x + 1
            }
        } else {
            x
        }
    }

    /// The neighboring position at offset `(dx, dy)`, each axis wrapped
    /// independently modulo `size`.
    pub fn point_with_offset(&self, dx: i8, dy: i8, size: usize) -> (r: Point)
        requires
            1 <= size,
            self.x < size,
            self.y < size,
            -1 <= dx <= 1,
            -1 <= dy <= 1,
        ensures
            r.x == wrap_index(self.x as int, dx as int, size as int),
            r.y == wrap_index(self.y as int, dy as int, size as int),
            r.x < size,
            r.y < size,
    {
        Point {
            x: Point::value_with_offset(self.x, dx, size),
            y: Point::value_with_offset(self.y, dy, size),
        }
    }
}

/// Wrapping one step stays inside `[0, size)` and moves to the adjacent index:
/// one step down from `0` lands on `size - 1`, one step up from `size - 1`
/// lands on `0`, and every other step is plain increment or decrement.
pub proof fn lemma_wrap_one_step(coord: int, size: int)
    requires
        0 <= coord < size,
    ensures
        wrap_index(coord, -1, size) == (if coord == 0 { size - 1 } else { coord - 1 }),
        wrap_index(coord, 1, size) == (if coord == size - 1 { 0 } else { coord + 1 }),
        wrap_index(coord, 0, size) == coord,
        0 <= wrap_index(coord, -1, size) < size,
        0 <= wrap_index(coord, 1, size) < size,
{
}

} // verus!
