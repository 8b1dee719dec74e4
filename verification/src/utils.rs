use vstd::prelude::*;

use crate::coords::CellCoord;

verus! {

/// A rectangle of cells: from `lower_left` (inclusive) to `upper_right` (exclusive) on both axes.
#[derive(Clone, Copy, Debug, PartialEq, Eq, Structural)]
pub struct Selection {
    pub lower_left: CellCoord,
    pub upper_right: CellCoord,
}

impl Selection {
    /// Whether the rectangle holds the cell at (`x`, `y`).
    pub open spec fn spec_contains(self, x: int, y: int) -> bool {
        &&& self.lower_left.0.x <= x < self.upper_right.0.x
        &&& self.lower_left.0.y <= y < self.upper_right.0.y
    }
}

} // verus!
