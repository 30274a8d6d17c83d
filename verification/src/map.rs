use vstd::prelude::*;

use crate::fp;

verus! {

/// The static occupancy grid: `cells[row][col]` is `0` for a Free cell and
/// any non-zero code for a Wall. Rows are indexed by `y`, columns by `x`,
/// so a cell is addressed as `(x, y)` throughout the crate.
pub struct GridMap {
    pub cells: Vec<Vec<u8>>,
}

impl GridMap {
    /// Well-formed: rectangular, non-empty, and small enough that every
    /// fixed-point coordinate inside the grid fits comfortably in `i64`.
    pub open spec fn wf(self) -> bool {
        &&& 1 <= self.cells.len() <= 4096
        &&& 1 <= self.cells[0].len() <= 4096
        &&& forall|r: int|
            0 <= r < self.cells.len() ==> #[trigger] self.cells[r].len() == self.cells[0].len()
    }

    pub open spec fn spec_width(self) -> int {
        self.cells[0].len() as int
    }

    pub open spec fn spec_height(self) -> int {
        self.cells.len() as int
    }

    /// Cell coordinates `(x, y)` index the grid.
    pub open spec fn in_bounds(self, x: int, y: int) -> bool {
        0 <= x < self.spec_width() && 0 <= y < self.spec_height()
    }

    /// The cell at column `x`, row `y` is Free.
    pub open spec fn free_at(self, x: int, y: int) -> bool {
        self.cells[y][x] == 0
    }

    /// A continuous fixed-point position `(x, y)` lies strictly inside the
    /// grid rectangle.
    pub open spec fn pos_in_bounds(self, x: i64, y: i64) -> bool {
        0 <= x < self.spec_width() * fp::ONE && 0 <= y < self.spec_height() * fp::ONE
    }

    pub fn width(&self) -> (w: usize)
        requires
            self.wf(),
        ensures
            w == self.spec_width(),
    {
        self.cells[0].len()
    }

    pub fn height(&self) -> (h: usize)
        ensures
            h == self.spec_height(),
    {
        self.cells.len()
    }

    /// Whether the in-bounds cell at column `x`, row `y` is Free.
    pub fn is_free(&self, x: usize, y: usize) -> (r: bool)
        requires
            self.wf(),
            self.in_bounds(x as int, y as int),
        ensures
            r == self.free_at(x as int, y as int),
    {
        proof {
            assert(self.cells[y as int].len() == self.cells[0].len());
        }
        self.cells[y][x] == 0
    }

    /// Whether a continuous fixed-point position lies inside the grid
    /// rectangle; positions on or past the outer edge are rejected.
    pub fn is_within_bounds(&self, x: i64, y: i64) -> (r: bool)
        requires
            self.wf(),
        ensures
            r == self.pos_in_bounds(x, y),
    {
        let w = self.width() as i64 * fp::ONE;
        let h = self.height() as i64 * fp::ONE;
        0 <= x && x < w && 0 <= y && y < h
    }
}

} // verus!
