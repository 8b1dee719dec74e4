use vstd::prelude::*;

use crate::coords::IVec2;
use crate::substrate::atom::{Atom, Cell, MosfetPart};
use crate::substrate::placement::Placement;
use crate::substrate::small_vec::{cell_atoms, cell_get, cell_len, cell_new, cell_push};

verus! {

/// NormalizedCell exists purely as a programming convenience, especially for painting. When editing
/// cells it's easier to deal with the cell as a single struct, instead of as a collection of [0, 4]
/// Atoms. NormalizedCells should be treated as transient and not stored anywhere.
#[derive(Clone, Copy, Debug, PartialEq, Eq, Structural)]
pub struct NormalizedCell {
    pub cell_loc: IVec2,
    pub metal: Metal,
    pub si: Silicon,
}

/// The metal layer of a cell.
#[derive(Clone, Copy, Debug, PartialEq, Eq, Structural)]
pub enum Metal {
    Absent,
    Trace { has_via: bool, placement: Placement },
}

/// The silicon layer of a cell: nothing, a single doped trace, or a MOSFET.
#[derive(Clone, Copy, Debug, PartialEq, Eq, Structural)]
pub enum Silicon {
    Absent,
    NP { is_n: bool, placement: Placement },
    Mosfet { is_npn: bool, gate_placement: Placement, ec_placement: Placement },
}

impl Silicon {
    /// True for N-type (or NPN) silicon when `n` is true, P-type (or PNP) when `n` is false.
    pub open spec fn spec_matches_n(self, n: bool) -> bool {
        match self {
            Silicon::NP { is_n, .. } => is_n == n,
            Silicon::Mosfet { is_npn, .. } => is_npn == n,
            Silicon::Absent => false,
        }
    }

    /// Whether the silicon is N-type (`n`) or P-type (`!n`); empty silicon matches neither.
    pub fn matches_n(&self, n: bool) -> (r: bool)
        ensures
            r == self.spec_matches_n(n),
    {
        match self {
            Silicon::NP { is_n, .. } if *is_n == n => true,
            Silicon::Mosfet { is_npn, .. } if *is_npn == n => true,
            _ => false,
        }
    }
}

/// The EC placement implied by a MOSFET gate placement: across its axis.
pub open spec fn spec_ec_for_gate(gate: Placement) -> Placement {
    if gate.left || gate.right {
        Placement::spec_up().spec_bitor(Placement::spec_down())
    } else {
        Placement::spec_left().spec_bitor(Placement::spec_right())
    }
}

impl NormalizedCell {
    /// The empty cell at the origin.
    pub open spec fn spec_default() -> NormalizedCell {
        NormalizedCell { cell_loc: IVec2::spec_zero(), metal: Metal::Absent, si: Silicon::Absent }
    }
}

impl Default for NormalizedCell {
    fn default() -> (r: NormalizedCell)
        ensures
            r == NormalizedCell::spec_default(),
    {
        NormalizedCell { cell_loc: IVec2::zero(), metal: Metal::Absent, si: Silicon::Absent }
    }
}

/// Folds one atom into a normalized cell: metal atoms set the metal trace (with a via when the
/// atom also carries si), plain si atoms set an NP trace, MOSFET base atoms set the MOSFET, and
/// the EC atoms of a MOSFET are ignored.
pub open spec fn normalize_step(nc: NormalizedCell, atom: Atom) -> NormalizedCell {
    let nc1 = NormalizedCell { cell_loc: atom.cell_loc, ..nc };
    let nc2 = if atom.metal != Placement::spec_none() {
        NormalizedCell {
            metal: Metal::Trace {
                has_via: atom.si != Placement::spec_none(),
                placement: atom.metal,
            },
            ..nc1
        }
    } else {
        nc1
    };
    if atom.si != Placement::spec_none() {
        if atom.mosfet_part == MosfetPart::Absent {
            NormalizedCell { si: Silicon::NP { is_n: atom.is_si_n, placement: atom.si }, ..nc2 }
        } else if atom.mosfet_part == MosfetPart::Base {
            NormalizedCell {
                si: Silicon::Mosfet {
                    is_npn: !atom.is_si_n,
                    gate_placement: atom.si,
                    ec_placement: spec_ec_for_gate(atom.si),
                },
                ..nc2
            }
        } else {
            nc2
        }
    } else {
        nc2
    }
}

/// The normalized form of a sequence of atoms: each atom folded in, in order, from the default.
pub open spec fn spec_normalize(atoms: Seq<Atom>) -> NormalizedCell
    decreases atoms.len(),
{
    if atoms.len() == 0 {
        NormalizedCell::spec_default()
    } else {
        normalize_step(spec_normalize(atoms.drop_last()), atoms.last())
    }
}

pub open spec fn spec_si_atom(loc: IVec2, si: Placement, is_si_n: bool, part: MosfetPart) -> Atom {
    Atom { si, is_si_n, mosfet_part: part, ..Atom::spec_empty_at(loc) }
}

pub open spec fn spec_metal_atom(loc: IVec2, metal: Placement) -> Atom {
    Atom { metal, ..Atom::spec_empty_at(loc) }
}

/// The three atoms of a MOSFET: the base, then the up/left EC, then the down/right EC.
pub open spec fn spec_mosfet_atoms(loc: IVec2, is_npn: bool, gate: Placement, ec: Placement) -> Seq<Atom> {
    seq![
        spec_si_atom(loc, gate, !is_npn, MosfetPart::Base),
        spec_si_atom(loc, if ec.up { Placement::spec_up() } else { Placement::spec_left() }, is_npn, MosfetPart::LeftEC),
        spec_si_atom(loc, if ec.down { Placement::spec_down() } else { Placement::spec_right() }, is_npn, MosfetPart::RightEC),
    ]
}

/// The atoms that make up a normalized cell.
pub open spec fn spec_to_atoms(nc: NormalizedCell) -> Seq<Atom> {
    let loc = nc.cell_loc;
    match (nc.metal, nc.si) {
        (Metal::Absent, Silicon::Absent) => Seq::empty(),
        (Metal::Absent, Silicon::NP { is_n, placement }) => seq![spec_si_atom(loc, placement, is_n, MosfetPart::Absent)],
        (Metal::Absent, Silicon::Mosfet { is_npn, gate_placement, ec_placement }) =>
            spec_mosfet_atoms(loc, is_npn, gate_placement, ec_placement),
        (Metal::Trace { placement, .. }, Silicon::Absent) => seq![spec_metal_atom(loc, placement)],
        (Metal::Trace { has_via, placement: mp }, Silicon::NP { is_n, placement: sp }) =>
            if has_via {
                seq![Atom { metal: mp, ..spec_si_atom(loc, sp, is_n, MosfetPart::Absent) }]
            } else {
                seq![spec_metal_atom(loc, mp), spec_si_atom(loc, sp, is_n, MosfetPart::Absent)]
            },
        (Metal::Trace { placement: mp, .. }, Silicon::Mosfet { is_npn, gate_placement, ec_placement }) =>
            seq![spec_metal_atom(loc, mp)] + spec_mosfet_atoms(loc, is_npn, gate_placement, ec_placement),
    }
}

/// A normalized cell whose atoms normalize back to it: an empty cell sits at the origin, every
/// present layer has a non-empty placement, a via sits only over an NP trace, and a MOSFET's EC
/// placement runs across its gate.
pub open spec fn spec_canonical(nc: NormalizedCell) -> bool {
    &&& (nc.metal == Metal::Absent && nc.si == Silicon::Absent) ==> nc.cell_loc == IVec2::spec_zero()
    &&& match nc.metal {
        Metal::Trace { has_via, placement } => placement != Placement::spec_none()
            && (has_via ==> nc.si is NP),
        Metal::Absent => true,
    }
    &&& match nc.si {
        Silicon::NP { placement, .. } => placement != Placement::spec_none(),
        Silicon::Mosfet { gate_placement, ec_placement, .. } => gate_placement != Placement::spec_none()
            && ec_placement == spec_ec_for_gate(gate_placement),
        Silicon::Absent => true,
    }
}

impl vstd::std_specs::convert::FromSpecImpl<Cell> for NormalizedCell {
    open spec fn obeys_from_spec() -> bool {
        true
    }

    open spec fn from_spec(cell: Cell) -> NormalizedCell {
        spec_normalize(cell_atoms(cell))
    }
}

impl From<Cell> for NormalizedCell {
    /// Normalizes the atoms of a cell (see `spec_normalize`).
    fn from(cell: Cell) -> (nc: NormalizedCell) {
        let mut nc = NormalizedCell::default();
        let n = cell_len(&cell);
        let mut i: usize = 0;
        while i < n
            invariant
                n == cell_atoms(cell).len(),
                i <= n,
                nc == spec_normalize(cell_atoms(cell).take(i as int)),
            decreases n - i,
        {
            let atom = cell_get(&cell, i);
            proof {
                assert(cell_atoms(cell).take(i + 1).drop_last() =~= cell_atoms(cell).take(i as int));
            }
            nc.cell_loc = atom.cell_loc;

            if atom.metal != Placement::none() {
                nc.metal = Metal::Trace {
                    has_via: atom.metal != Placement::none() && atom.si != Placement::none(),
                    placement: atom.metal,
                };
            }

            if atom.si != Placement::none() {
                if atom.mosfet_part == MosfetPart::Absent {
                    nc.si = Silicon::NP { is_n: atom.is_si_n, placement: atom.si };
                } else if atom.mosfet_part == MosfetPart::Base {
                    nc.si = Silicon::Mosfet {
                        is_npn: !atom.is_si_n,
                        gate_placement: atom.si,
                        ec_placement: if atom.si.left || atom.si.right {
                            Placement::up().bitor(Placement::down())
                        } else {
                            Placement::left().bitor(Placement::right())
                        },
                    };
                }
                // The Left/Right EC atoms are ignored, we only need the base.
            }
            i = i + 1;
        }
        proof {
            assert(cell_atoms(cell).take(n as int) =~= cell_atoms(cell));
        }
        nc
    }
}

} // verus!

verus! {

impl vstd::std_specs::convert::FromSpecImpl<NormalizedCell> for Cell {
    open spec fn obeys_from_spec() -> bool {
        false
    }

    open spec fn from_spec(nc: NormalizedCell) -> Cell {
        arbitrary()
    }
}

fn si_atom(loc: IVec2, si: Placement, is_si_n: bool, part: MosfetPart) -> (r: Atom)
    ensures
        r == spec_si_atom(loc, si, is_si_n, part),
{
    Atom { cell_loc: loc, metal: Placement::none(), si, is_si_n, mosfet_part: part }
}

fn metal_atom(loc: IVec2, metal: Placement) -> (r: Atom)
    ensures
        r == spec_metal_atom(loc, metal),
{
    Atom { cell_loc: loc, metal, si: Placement::none(), is_si_n: false, mosfet_part: MosfetPart::Absent }
}

fn push_mosfet_atoms(cell: &mut Cell, loc: IVec2, is_npn: bool, gate: Placement, ec: Placement)
    requires
        cell_atoms(*old(cell)).len() <= 1,
    ensures
        cell_atoms(*final(cell)) == cell_atoms(*old(cell)) + spec_mosfet_atoms(loc, is_npn, gate, ec),
{
    // Base
    cell_push(cell, si_atom(loc, gate, !is_npn, MosfetPart::Base));
    // Left EC (left or up)
    let left = if ec.up { Placement::up() } else { Placement::left() };
    cell_push(cell, si_atom(loc, left, is_npn, MosfetPart::LeftEC));
    // Right EC (right or down)
    let right = if ec.down { Placement::down() } else { Placement::right() };
    cell_push(cell, si_atom(loc, right, is_npn, MosfetPart::RightEC));
    proof {
        assert(cell_atoms(*cell) =~= cell_atoms(*old(cell)) + spec_mosfet_atoms(loc, is_npn, gate, ec));
    }
}

impl From<NormalizedCell> for Cell {
    /// The atoms of a normalized cell (see `spec_to_atoms`).
    fn from(nc: NormalizedCell) -> (cell: Cell)
        ensures
            cell_atoms(cell) == spec_to_atoms(nc),
    {
        let mut cell = cell_new();
        let loc = nc.cell_loc;
        match (nc.metal, nc.si) {
            (Metal::Absent, Silicon::Absent) => {},
            (Metal::Absent, Silicon::NP { is_n, placement }) => {
                cell_push(&mut cell, si_atom(loc, placement, is_n, MosfetPart::Absent));
            },
            (Metal::Absent, Silicon::Mosfet { is_npn, gate_placement, ec_placement }) => {
                push_mosfet_atoms(&mut cell, loc, is_npn, gate_placement, ec_placement);
            },
            (Metal::Trace { placement, .. }, Silicon::Absent) => {
                cell_push(&mut cell, metal_atom(loc, placement));
            },
            (Metal::Trace { has_via, placement: metal_placement }, Silicon::NP { is_n, placement: si_placement }) => {
                if has_via {
                    cell_push(
                        &mut cell,
                        Atom { cell_loc: loc, metal: metal_placement, si: si_placement, is_si_n: is_n, mosfet_part: MosfetPart::Absent },
                    );
                } else {
                    cell_push(&mut cell, metal_atom(loc, metal_placement));
                    cell_push(&mut cell, si_atom(loc, si_placement, is_n, MosfetPart::Absent));
                }
            },
            (Metal::Trace { placement: metal_placement, .. }, Silicon::Mosfet { is_npn, gate_placement, ec_placement }) => {
                // Vias cannot connect to MOSFETS, so we don't need to check them.
                cell_push(&mut cell, metal_atom(loc, metal_placement));
                push_mosfet_atoms(&mut cell, loc, is_npn, gate_placement, ec_placement);
            },
        }
        proof {
            assert(cell_atoms(cell) =~= spec_to_atoms(nc));
        }
        cell
    }
}

/// Converting a canonical normalized cell into atoms and normalizing those atoms gives back the
/// same normalized cell.
pub proof fn lemma_normalize_to_atoms_roundtrip(nc: NormalizedCell)
    requires
        spec_canonical(nc),
    ensures
        spec_normalize(spec_to_atoms(nc)) == nc,
{
    let atoms = spec_to_atoms(nc);
    reveal_with_fuel(spec_normalize, 5);
    if atoms.len() >= 1 {
        assert(atoms.take(0) =~= Seq::<Atom>::empty());
    }
    if atoms.len() == 2 {
        assert(atoms.drop_last() =~= seq![atoms[0]]);
        assert(seq![atoms[0]].drop_last() =~= Seq::<Atom>::empty());
    }
    if atoms.len() == 1 {
        assert(atoms.drop_last() =~= Seq::<Atom>::empty());
    }
    if atoms.len() == 3 {
        assert(atoms.drop_last() =~= seq![atoms[0], atoms[1]]);
        assert(seq![atoms[0], atoms[1]].drop_last() =~= seq![atoms[0]]);
        assert(seq![atoms[0]].drop_last() =~= Seq::<Atom>::empty());
    }
    if atoms.len() == 4 {
        assert(atoms.drop_last() =~= seq![atoms[0], atoms[1], atoms[2]]);
        assert(seq![atoms[0], atoms[1], atoms[2]].drop_last() =~= seq![atoms[0], atoms[1]]);
        assert(seq![atoms[0], atoms[1]].drop_last() =~= seq![atoms[0]]);
        assert(seq![atoms[0]].drop_last() =~= Seq::<Atom>::empty());
    }
}

} // verus!
