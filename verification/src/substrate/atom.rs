use arrayvec::ArrayVec;
use vstd::prelude::*;

use crate::coords::IVec2;
use crate::substrate::placement::{is_cardinal, Placement};

verus! {

/// An Atom belongs to exactly one conductive path. It may be a middle-link in the path, or a leaf
/// node of the path connecting to a MOSFET, or both.
#[derive(Clone, Copy, Debug, PartialEq, Eq, Structural, Hash)]
pub struct Atom {
    /// The cell location this atom resides in.
    pub cell_loc: IVec2,
    /// The metal layer placements of this atom connects. Non-zero metal and non-zero Si in on
    /// atom implies the presence of a Via.
    pub metal: Placement,
    /// The si layer placements of this atom connects.
    pub si: Placement,
    /// Set to true if the si above are N-Type. Meaningless when si is zero.
    pub is_si_n: bool,
    /// The part of a MOSFET that this atom (and thus the Path it belongs to) joins with, if any.
    pub mosfet_part: MosfetPart,
}

/// A cell holds at most 4 atoms: a MOSFET (base, left EC and right EC) with metal above it.
pub type Cell = ArrayVec<Atom, 4>;

/// The different parts (as far as a conductive path is concerned) of a MOSFET.
#[derive(Clone, Copy, Debug, PartialEq, Eq, Structural, Hash, PartialOrd, Ord)]
pub enum MosfetPart {
    Absent,
    Base,
    LeftEC,
    RightEC,
}

impl Atom {
    /// An atom at `cell_loc` with no placements, P-type and no MOSFET part.
    pub open spec fn spec_empty_at(cell_loc: IVec2) -> Atom {
        Atom {
            cell_loc,
            metal: Placement::spec_none(),
            si: Placement::spec_none(),
            is_si_n: false,
            mosfet_part: MosfetPart::Absent,
        }
    }

    /// True when `other` sits one step away from `self` in a cardinal direction.
    pub open spec fn spec_adjacent(self, other: Atom) -> bool {
        is_cardinal(IVec2 { x: (other.cell_loc.x - self.cell_loc.x) as i32, y: (other.cell_loc.y - self.cell_loc.y) as i32 })
            && i32::MIN <= other.cell_loc.x - self.cell_loc.x <= i32::MAX
            && i32::MIN <= other.cell_loc.y - self.cell_loc.y <= i32::MAX
    }

    /// Both atoms connect towards each other on the metal layer, or both on the si layer.
    pub open spec fn spec_neighbor_of(self, other: Atom) -> bool {
        let dir = IVec2 { x: (other.cell_loc.x - self.cell_loc.x) as i32, y: (other.cell_loc.y - self.cell_loc.y) as i32 };
        let back = IVec2 { x: (self.cell_loc.x - other.cell_loc.x) as i32, y: (self.cell_loc.y - other.cell_loc.y) as i32 };
        (self.metal.spec_has_cardinal(dir) && other.metal.spec_has_cardinal(back))
            || (self.si.spec_has_cardinal(dir) && other.si.spec_has_cardinal(back))
    }

    /// Returns true if the 'other' Atom is a neighbor of self. The two atoms must be in cells
    /// one cardinal step apart.
    pub fn neighbor_of(&self, other: &Atom) -> (r: bool)
        requires
            self.spec_adjacent(*other),
        ensures
            r == self.spec_neighbor_of(*other),
    {
        let dir = other.cell_loc.sub(self.cell_loc);
        let back = dir.neg();
        (self.metal.has_cardinal(dir) && other.metal.has_cardinal(back))
            || (self.si.has_cardinal(dir) && other.si.has_cardinal(back))
    }
}

} // verus!
