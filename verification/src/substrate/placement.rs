use arrayvec::ArrayVec;
use vstd::prelude::*;

use crate::coords::IVec2;
use crate::substrate::small_vec::{dir_vec_items, dir_vec_new, dir_vec_push};

verus! {

/// Represents the various placements of Metal and Si within a Cell, including the 4 cardinal
/// directions, and the center "self" location (which is implicit when any cardinal direction is
/// set, but can also stand alone).
#[derive(Clone, Copy, Debug, PartialEq, Eq, Structural, Hash)]
pub struct Placement {
    pub center: bool,
    pub up: bool,
    pub right: bool,
    pub down: bool,
    pub left: bool,
}

/// True when `dir` is one of the four unit vectors (up is +y, right is +x).
pub open spec fn is_cardinal(dir: IVec2) -> bool {
    ||| (dir.x == 0 && dir.y == 1)
    ||| (dir.x == 1 && dir.y == 0)
    ||| (dir.x == 0 && dir.y == -1)
    ||| (dir.x == -1 && dir.y == 0)
}

pub open spec fn unit_up() -> IVec2 {
    IVec2 { x: 0, y: 1 }
}

pub open spec fn unit_right() -> IVec2 {
    IVec2 { x: 1, y: 0 }
}

pub open spec fn unit_down() -> IVec2 {
    IVec2 { x: 0, y: -1i32 }
}

pub open spec fn unit_left() -> IVec2 {
    IVec2 { x: -1i32, y: 0 }
}

impl Placement {
    pub open spec fn spec_new(center: bool, up: bool, right: bool, down: bool, left: bool) -> Placement {
        Placement { center, up, right, down, left }
    }

    pub open spec fn spec_none() -> Placement {
        Placement::spec_new(false, false, false, false, false)
    }

    pub open spec fn spec_center() -> Placement {
        Placement::spec_new(true, false, false, false, false)
    }

    pub open spec fn spec_up() -> Placement {
        Placement::spec_new(true, true, false, false, false)
    }

    pub open spec fn spec_right() -> Placement {
        Placement::spec_new(true, false, true, false, false)
    }

    pub open spec fn spec_down() -> Placement {
        Placement::spec_new(true, false, false, true, false)
    }

    pub open spec fn spec_left() -> Placement {
        Placement::spec_new(true, false, false, false, true)
    }

    /// Whether the placement reaches out in the cardinal direction `dir`.
    pub open spec fn spec_has_cardinal(self, dir: IVec2) -> bool {
        if dir.x == 0 && dir.y == 1 {
            self.up
        } else if dir.x == 1 && dir.y == 0 {
            self.right
        } else if dir.x == 0 && dir.y == -1 {
            self.down
        } else {
            self.left
        }
    }

    /// The placement with `dir` (and the center) added.
    pub open spec fn spec_with_cardinal(self, dir: IVec2) -> Placement {
        if dir.x == 0 && dir.y == 1 {
            Placement { up: true, center: true, ..self }
        } else if dir.x == 1 && dir.y == 0 {
            Placement { right: true, center: true, ..self }
        } else if dir.x == 0 && dir.y == -1 {
            Placement { down: true, center: true, ..self }
        } else {
            Placement { left: true, center: true, ..self }
        }
    }

    pub open spec fn spec_bitor(self, rhs: Placement) -> Placement {
        Placement {
            center: self.center || rhs.center,
            up: self.up || rhs.up,
            right: self.right || rhs.right,
            down: self.down || rhs.down,
            left: self.left || rhs.left,
        }
    }

    /// The unit vectors of the set cardinal directions, in the order up, right, down, left.
    pub open spec fn spec_cardinal_vectors(self) -> Seq<IVec2> {
        let s0 = Seq::<IVec2>::empty();
        let s1 = if self.up { s0.push(unit_up()) } else { s0 };
        let s2 = if self.right { s1.push(unit_right()) } else { s1 };
        let s3 = if self.down { s2.push(unit_down()) } else { s2 };
        if self.left { s3.push(unit_left()) } else { s3 }
    }

    /// No placement at all.
    pub fn none() -> (r: Placement)
        ensures
            r == Placement::spec_none(),
    {
        Placement { center: false, up: false, right: false, down: false, left: false }
    }

    /// Only the center of the cell.
    pub fn center_only() -> (r: Placement)
        ensures
            r == Placement::spec_center(),
    {
        Placement { center: true, up: false, right: false, down: false, left: false }
    }

    /// The center and the upward direction.
    pub fn up() -> (r: Placement)
        ensures
            r == Placement::spec_up(),
    {
        Placement { center: true, up: true, right: false, down: false, left: false }
    }

    /// The center and the rightward direction.
    pub fn right() -> (r: Placement)
        ensures
            r == Placement::spec_right(),
    {
        Placement { center: true, up: false, right: true, down: false, left: false }
    }

    /// The center and the downward direction.
    pub fn down() -> (r: Placement)
        ensures
            r == Placement::spec_down(),
    {
        Placement { center: true, up: false, right: false, down: true, left: false }
    }

    /// The center and the leftward direction.
    pub fn left() -> (r: Placement)
        ensures
            r == Placement::spec_left(),
    {
        Placement { center: true, up: false, right: false, down: false, left: true }
    }

    /// The single-direction placement (center included) for a unit cardinal vector.
    pub fn from_cardinal(dir: IVec2) -> (r: Placement)
        requires
            is_cardinal(dir),
        ensures
            r == Placement::spec_none().spec_with_cardinal(dir),
    {
        if dir.x == 0 && dir.y == 1 {
            Self::up()
        } else if dir.x == 1 && dir.y == 0 {
            Self::right()
        } else if dir.x == 0 && dir.y == -1 {
            Self::down()
        } else {
            Self::left()
        }
    }

    /// The axis perpendicular to this placement: left and right for a vertical placement, up and
    /// down otherwise. Meaningless for a placement without directions.
    pub fn tangent(&self) -> (r: Placement)
        requires
            *self != Placement::spec_none(),
            *self != Placement::spec_center(),
        ensures
            r == (if self.up || self.down {
                Placement::spec_left().spec_bitor(Placement::spec_right())
            } else {
                Placement::spec_up().spec_bitor(Placement::spec_down())
            }),
    {
        if self.up || self.down {
            Self::left().bitor(Self::right())
        } else {
            Self::up().bitor(Self::down())
        }
    }

    /// The unit vectors of the set cardinal directions (up, right, down, left order).
    pub fn cardinal_vectors(&self) -> (r: ArrayVec<IVec2, 4>)
        ensures
            dir_vec_items(r) == self.spec_cardinal_vectors(),
    {
        let mut vec = dir_vec_new();
        if self.up {
            dir_vec_push(&mut vec, IVec2::new(0, 1));
        }
        if self.right {
            dir_vec_push(&mut vec, IVec2::new(1, 0));
        }
        if self.down {
            dir_vec_push(&mut vec, IVec2::new(0, -1));
        }
        if self.left {
            dir_vec_push(&mut vec, IVec2::new(-1, 0));
        }
        vec
    }

    /// Adds the cardinal direction `dir`, which also sets the center.
    pub fn set_cardinal(&mut self, dir: IVec2)
        requires
            is_cardinal(dir),
        ensures
            *final(self) == old(self).spec_with_cardinal(dir),
    {
        if dir.x == 0 && dir.y == 1 {
            self.up = true;
        } else if dir.x == 1 && dir.y == 0 {
            self.right = true;
        } else if dir.x == 0 && dir.y == -1 {
            self.down = true;
        } else {
            self.left = true;
        }
        self.center = true;
    }

    /// Whether the placement reaches out in the cardinal direction `dir`.
    pub fn has_cardinal(&self, dir: IVec2) -> (r: bool)
        requires
            is_cardinal(dir),
        ensures
            r == self.spec_has_cardinal(dir),
    {
        if dir.x == 0 && dir.y == 1 {
            self.up
        } else if dir.x == 1 && dir.y == 0 {
            self.right
        } else if dir.x == 0 && dir.y == -1 {
            self.down
        } else {
            self.left
        }
    }

    /// The union of two placements.
    pub fn bitor(self, rhs: Placement) -> (r: Placement)
        ensures
            r == self.spec_bitor(rhs),
    {
        Placement {
            center: self.center || rhs.center,
            left: self.left || rhs.left,
            up: self.up || rhs.up,
            right: self.right || rhs.right,
            down: self.down || rhs.down,
        }
    }
}

} // verus!
