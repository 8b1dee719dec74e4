//! Bespoke bit-packing serializer for Cells, which can be compacted down into 4 bytes using a few
//! tricks, saving an immense amount of space.
use vstd::prelude::*;

use crate::coords::IVec2;
use crate::substrate::atom::{Atom, Cell, MosfetPart};
use crate::substrate::normalized_cell::{
    spec_canonical, spec_metal_atom, spec_normalize, spec_si_atom, spec_to_atoms, Metal, NormalizedCell,
    Silicon,
};
use crate::substrate::placement::Placement;
use crate::substrate::small_vec::{cell_atoms, cell_get, cell_len, cell_new, cell_push};
use crate::substrate::integrated_circuit::{
    lemma_cell_at_distinct, lemma_cell_at_entry, lemma_set_cell_at, spec_atom_dirs, spec_atom_valid, spec_atom_valid_in,
    spec_cell_at, spec_cells_valid, spec_chunk_of, spec_compiled, spec_locs_distinct, spec_map_valid, spec_step,
    spec_step_in_range, CellEntry, IntegratedCircuit,
};
use crate::substrate::pin::PinModule;

verus! {

pub const FLAG_METAL: u32 = 1;
pub const FLAG_METAL_UP: u32 = 2;
pub const FLAG_METAL_RIGHT: u32 = 4;
pub const FLAG_METAL_DOWN: u32 = 8;
pub const FLAG_METAL_LEFT: u32 = 16;
pub const FLAG_VIA: u32 = 32;
pub const FLAG_SI_NP: u32 = 64;
pub const FLAG_SI_MOSFET: u32 = 128;
pub const FLAG_SI_N: u32 = 256;
// Used with FLAG_SI_NP
pub const FLAG_SI_UP: u32 = 512;
pub const FLAG_SI_RIGHT: u32 = 1024;
pub const FLAG_SI_DOWN: u32 = 2048;
pub const FLAG_SI_LEFT: u32 = 4096;
// Used with FLAG_SI_MOSFET
pub const FLAG_SI_MOSFET_HORIZONTAL: u32 = 512;
pub const FLAG_SI_MOSFET_BASE_UL: u32 = 1024;
pub const FLAG_SI_MOSFET_BASE_DR: u32 = 2048;

/// `bits` with `flag` set when `cond` holds.
pub open spec fn or_if(bits: u32, cond: bool, flag: u32) -> u32 {
    if cond { bits | flag } else { bits }
}

/// The flags one atom adds to the packed bits: metal with its directions (and a via when the atom
/// also carries si), then either an NP trace with its type and directions, or a MOSFET base with
/// its type, axis and which sides of the axis its base reaches. EC atoms add nothing.
pub open spec fn spec_atom_flags(bits: u32, atom: Atom) -> u32 {
    let b1 = if atom.metal != Placement::spec_none() {
        let m0 = bits | FLAG_METAL;
        let m1 = or_if(m0, atom.metal.up, FLAG_METAL_UP);
        let m2 = or_if(m1, atom.metal.right, FLAG_METAL_RIGHT);
        let m3 = or_if(m2, atom.metal.down, FLAG_METAL_DOWN);
        let m4 = or_if(m3, atom.metal.left, FLAG_METAL_LEFT);
        or_if(m4, atom.si != Placement::spec_none(), FLAG_VIA)
    } else {
        bits
    };
    if atom.si != Placement::spec_none() {
        if atom.mosfet_part == MosfetPart::Absent {
            let s0 = b1 | FLAG_SI_NP;
            let s1 = or_if(s0, atom.is_si_n, FLAG_SI_N);
            let s2 = or_if(s1, atom.si.up, FLAG_SI_UP);
            let s3 = or_if(s2, atom.si.right, FLAG_SI_RIGHT);
            let s4 = or_if(s3, atom.si.down, FLAG_SI_DOWN);
            or_if(s4, atom.si.left, FLAG_SI_LEFT)
        } else if atom.mosfet_part == MosfetPart::Base {
            let s0 = b1 | FLAG_SI_MOSFET;
            let s1 = or_if(s0, atom.is_si_n, FLAG_SI_N);
            let s2 = or_if(s1, atom.si.up || atom.si.down, FLAG_SI_MOSFET_HORIZONTAL);
            let s3 = or_if(s2, atom.si.up || atom.si.left, FLAG_SI_MOSFET_BASE_UL);
            or_if(s3, atom.si.down || atom.si.right, FLAG_SI_MOSFET_BASE_DR)
        } else {
            b1
        }
    } else {
        b1
    }
}

/// The flags of all atoms, added in order onto `bits`.
pub open spec fn spec_atoms_flags(bits: u32, atoms: Seq<Atom>) -> u32
    decreases atoms.len(),
{
    if atoms.len() == 0 {
        bits
    } else {
        spec_atom_flags(spec_atoms_flags(bits, atoms.drop_last()), atoms.last())
    }
}

/// The location bits: the low bytes of the x and y offsets in bits 24..31 and 16..23.
pub open spec fn spec_loc_bits(x: i32, y: i32) -> u32 {
    (((0u32 | ((x as u8) as u32)) << 8u32) | ((y as u8) as u32)) << 16u32
}

/// The packed form of a cell's atoms relative to `offset`: 0 for a cell without atoms, otherwise
/// the location bits of the first atom's offset from `offset` with every atom's flags added.
pub open spec fn spec_serialize_cell(atoms: Seq<Atom>, offset: IVec2) -> u32 {
    if atoms.len() == 0 {
        0
    } else {
        spec_atoms_flags(
            spec_loc_bits(
                (atoms[0].cell_loc.x - offset.x) as i32,
                (atoms[0].cell_loc.y - offset.y) as i32,
            ),
            atoms,
        )
    }
}

fn atom_flags(bits: u32, atom: &Atom) -> (r: u32)
    ensures
        r == spec_atom_flags(bits, *atom),
{
    let mut bits = bits;
    if atom.metal != Placement::none() {
        bits |= FLAG_METAL;
        if atom.metal.up {
            bits |= FLAG_METAL_UP;
        };
        if atom.metal.right {
            bits |= FLAG_METAL_RIGHT;
        };
        if atom.metal.down {
            bits |= FLAG_METAL_DOWN;
        };
        if atom.metal.left {
            bits |= FLAG_METAL_LEFT;
        };
        if atom.si != Placement::none() {
            bits |= FLAG_VIA;
        }
    }
    if atom.si != Placement::none() {
        if atom.mosfet_part == MosfetPart::Absent {
            bits |= FLAG_SI_NP;
            if atom.is_si_n {
                bits |= FLAG_SI_N;
            }
            if atom.si.up {
                bits |= FLAG_SI_UP;
            }
            if atom.si.right {
                bits |= FLAG_SI_RIGHT;
            }
            if atom.si.down {
                bits |= FLAG_SI_DOWN;
            }
            if atom.si.left {
                bits |= FLAG_SI_LEFT;
            }
        } else if atom.mosfet_part == MosfetPart::Base {
            // atom.si in this case is the base.
            bits |= FLAG_SI_MOSFET;
            if atom.is_si_n {
                bits |= FLAG_SI_N;
            }
            if atom.si.up || atom.si.down {
                bits |= FLAG_SI_MOSFET_HORIZONTAL;
            }
            if atom.si.up || atom.si.left {
                bits |= FLAG_SI_MOSFET_BASE_UL;
            }
            if atom.si.down || atom.si.right {
                bits |= FLAG_SI_MOSFET_BASE_DR;
            }
        }
        // The Left/Right EC atoms are ignored, we only need the base.
    }
    bits
}

/// Serialize a cell into 4 bytes:
/// [0-7], [8-15]: X, Y coords as the difference between `offset` and the cell location.
/// [16-31]: Bit packed layout data.
/// The first atom's offset from `offset` must fit in an `i32`.
pub fn serialize_cell(cell: &Cell, offset: &IVec2) -> (bits: u32)
    requires
        cell_atoms(*cell).len() > 0 ==> {
            &&& i32::MIN <= cell_atoms(*cell)[0].cell_loc.x - offset.x <= i32::MAX
            &&& i32::MIN <= cell_atoms(*cell)[0].cell_loc.y - offset.y <= i32::MAX
        },
    ensures
        bits == spec_serialize_cell(cell_atoms(*cell), *offset),
{
    let n = cell_len(cell);
    // A cell without atoms serializes to nothing.
    if n == 0 {
        return 0;
    }
    let mut bits = 0u32;
    let loc = cell_get(cell, 0).cell_loc.sub(*offset);

    bits |= (loc.x as u8) as u32;
    bits = bits << 8u32;
    bits |= (loc.y as u8) as u32;
    bits = bits << 16u32;

    let ghost start = bits;
    assert(start == spec_loc_bits(loc.x, loc.y));
    let mut i: usize = 0;
    while i < n
        invariant
            n == cell_atoms(*cell).len(),
            i <= n,
            bits == spec_atoms_flags(start, cell_atoms(*cell).take(i as int)),
        decreases n - i,
    {
        proof {
            assert(cell_atoms(*cell).take(i + 1).drop_last() =~= cell_atoms(*cell).take(i as int));
        }
        let atom = cell_get(cell, i);
        bits = atom_flags(bits, &atom);
        i = i + 1;
    }
    proof {
        assert(cell_atoms(*cell).take(n as int) =~= cell_atoms(*cell));
    }
    bits
}

/// The placement stored in five flag bits (the center bit, then up, right, down, left).
pub open spec fn spec_placement_from_bits(bits: u32, c: u32, u: u32, r: u32, d: u32, l: u32) -> Placement {
    Placement {
        center: bits & c != 0,
        up: bits & u != 0,
        right: bits & r != 0,
        down: bits & d != 0,
        left: bits & l != 0,
    }
}

/// The location packed in the top two bytes, as an offset from `anchor`.
pub open spec fn spec_unpacked_loc(bits: u32, anchor: IVec2) -> IVec2 {
    IVec2 {
        x: (((bits >> 24u32) & 255u32) + anchor.x) as i32,
        y: (((bits >> 16u32) & 255u32) + anchor.y) as i32,
    }
}

/// The atoms packed in `bits`: a metal atom (carrying the NP si when the via flag is set) when
/// the metal flag is set; otherwise an NP atom, or the three MOSFET atoms (up/left EC, down/right
/// EC, base), or nothing.
pub open spec fn spec_deserialize_atoms(bits: u32, anchor: IVec2) -> Seq<Atom> {
    let loc = spec_unpacked_loc(bits, anchor);
    let metal = spec_placement_from_bits(bits, FLAG_METAL, FLAG_METAL_UP, FLAG_METAL_RIGHT, FLAG_METAL_DOWN, FLAG_METAL_LEFT);
    let si_np = spec_placement_from_bits(bits, FLAG_SI_NP, FLAG_SI_UP, FLAG_SI_RIGHT, FLAG_SI_DOWN, FLAG_SI_LEFT);
    let is_n = bits & FLAG_SI_N != 0;
    if bits & FLAG_METAL != 0 {
        if bits & FLAG_VIA != 0 {
            seq![Atom { cell_loc: loc, metal, si: si_np, is_si_n: is_n, mosfet_part: MosfetPart::Absent }]
        } else {
            seq![spec_metal_atom(loc, metal)]
        }
    } else if bits & FLAG_SI_NP != 0 {
        seq![spec_si_atom(loc, si_np, is_n, MosfetPart::Absent)]
    } else if bits & FLAG_SI_MOSFET != 0 {
        let horizontal = bits & FLAG_SI_MOSFET_HORIZONTAL != 0;
        let ul = bits & FLAG_SI_MOSFET_BASE_UL != 0;
        let dr = bits & FLAG_SI_MOSFET_BASE_DR != 0;
        seq![
            spec_si_atom(loc, if horizontal { Placement::spec_left() } else { Placement::spec_up() }, !is_n, MosfetPart::LeftEC),
            spec_si_atom(loc, if horizontal { Placement::spec_right() } else { Placement::spec_down() }, !is_n, MosfetPart::RightEC),
            spec_si_atom(
                loc,
                Placement {
                    center: true,
                    up: horizontal && ul,
                    down: horizontal && dr,
                    right: !horizontal && dr,
                    left: !horizontal && ul,
                },
                is_n,
                MosfetPart::Base,
            ),
        ]
    } else {
        Seq::empty()
    }
}

fn placement_from_bits(bits: u32, c: u32, u: u32, r: u32, d: u32, l: u32) -> (p: Placement)
    ensures
        p == spec_placement_from_bits(bits, c, u, r, d, l),
{
    Placement { center: bits & c > 0, up: bits & u > 0, right: bits & r > 0, down: bits & d > 0, left: bits & l > 0 }
}

/// Unpacks the atoms of a cell from its 4-byte form (see `spec_deserialize_atoms`). The packed
/// offsets (0 to 255) added to `loc_anchor` must fit in an `i32`.
pub fn deserialize_cell(bits: u32, loc_anchor: &IVec2) -> (cell: Cell)
    requires
        loc_anchor.x + ((bits >> 24u32) & 255u32) <= i32::MAX,
        loc_anchor.y + ((bits >> 16u32) & 255u32) <= i32::MAX,
    ensures
        cell_atoms(cell) == spec_deserialize_atoms(bits, *loc_anchor),
{
    let x = (bits >> 24u32) & 255u32;
    let y = (bits >> 16u32) & 255u32;
    assert(x <= 255 && y <= 255) by (bit_vector)
        requires
            x == (bits >> 24u32) & 255u32,
            y == (bits >> 16u32) & 255u32,
    ;
    let cell_loc = IVec2::new(x as i32 + loc_anchor.x, y as i32 + loc_anchor.y);

    let mut atoms: Cell = cell_new();

    let metal_placement = placement_from_bits(bits, FLAG_METAL, FLAG_METAL_UP, FLAG_METAL_RIGHT, FLAG_METAL_DOWN, FLAG_METAL_LEFT);
    let si_np_placement = placement_from_bits(bits, FLAG_SI_NP, FLAG_SI_UP, FLAG_SI_RIGHT, FLAG_SI_DOWN, FLAG_SI_LEFT);

    if bits & FLAG_METAL > 0 {
        // Metal atom of some type.
        if bits & FLAG_VIA > 0 {
            // Metal + Si atom.
            cell_push(&mut atoms, Atom {
                cell_loc,
                metal: metal_placement,
                si: si_np_placement,
                is_si_n: bits & FLAG_SI_N > 0,
                mosfet_part: MosfetPart::Absent,
            });
        } else {
            // Metal only atom.
            cell_push(&mut atoms, Atom {
                cell_loc,
                metal: metal_placement,
                si: Placement::none(),
                is_si_n: false,
                mosfet_part: MosfetPart::Absent,
            });
        }
    } else {
        // Non-metal atom of some type.
        if bits & FLAG_SI_NP > 0 {
            // Si trace
            cell_push(&mut atoms, Atom {
                cell_loc,
                metal: Placement::none(),
                si: si_np_placement,
                is_si_n: bits & FLAG_SI_N > 0,
                mosfet_part: MosfetPart::Absent,
            });
        } else if bits & FLAG_SI_MOSFET > 0 {
            // Si MOSFET base (add all 3 atoms for Base/E/C)
            let is_base_n = bits & FLAG_SI_N > 0;
            let is_horizontal = bits & FLAG_SI_MOSFET_HORIZONTAL > 0;

            // Left or up EC
            cell_push(&mut atoms, Atom {
                cell_loc,
                metal: Placement::none(),
                si: if is_horizontal { Placement::left() } else { Placement::up() },
                is_si_n: !is_base_n,
                mosfet_part: MosfetPart::LeftEC,
            });

            // Right or down EC
            cell_push(&mut atoms, Atom {
                cell_loc,
                metal: Placement::none(),
                si: if is_horizontal { Placement::right() } else { Placement::down() },
                is_si_n: !is_base_n,
                mosfet_part: MosfetPart::RightEC,
            });

            // Base
            let ul = bits & FLAG_SI_MOSFET_BASE_UL > 0;
            let dr = bits & FLAG_SI_MOSFET_BASE_DR > 0;
            cell_push(&mut atoms, Atom {
                cell_loc,
                metal: Placement::none(),
                si: Placement {
                    center: true,
                    up: is_horizontal && ul,
                    down: is_horizontal && dr,
                    right: !is_horizontal && dr,
                    left: !is_horizontal && ul,
                },
                is_si_n: is_base_n,
                mosfet_part: MosfetPart::Base,
            });
        }
    }
    proof {
        assert(cell_atoms(atoms) =~= spec_deserialize_atoms(bits, *loc_anchor));
    }
    atoms
}

} // verus!

verus! {

/// The bits a metal atom adds (directions up, right, down, left and the via flag).
pub open spec fn spec_metal_bits(b: u32, u: bool, r: bool, d: bool, l: bool, via: bool) -> u32 {
    or_if(
        or_if(or_if(or_if(or_if(b | FLAG_METAL, u, FLAG_METAL_UP), r, FLAG_METAL_RIGHT), d, FLAG_METAL_DOWN), l, FLAG_METAL_LEFT),
        via,
        FLAG_VIA,
    )
}

/// The bits an NP si atom adds (type, then directions up, right, down, left).
pub open spec fn spec_np_bits(b: u32, n: bool, u: bool, r: bool, d: bool, l: bool) -> u32 {
    or_if(
        or_if(or_if(or_if(or_if(b | FLAG_SI_NP, n, FLAG_SI_N), u, FLAG_SI_UP), r, FLAG_SI_RIGHT), d, FLAG_SI_DOWN),
        l,
        FLAG_SI_LEFT,
    )
}

/// The bits a MOSFET base atom adds (type, axis, upper/left side, lower/right side).
pub open spec fn spec_mosfet_bits(b: u32, n: bool, h: bool, ul: bool, dr: bool) -> u32 {
    or_if(or_if(or_if(or_if(b | FLAG_SI_MOSFET, n, FLAG_SI_N), h, FLAG_SI_MOSFET_HORIZONTAL), ul, FLAG_SI_MOSFET_BASE_UL), dr, FLAG_SI_MOSFET_BASE_DR)
}

proof fn lemma_loc_bits(x: i32, y: i32)
    by (bit_vector)
    requires
        0 <= x <= 255,
        0 <= y <= 255,
    ensures
        spec_loc_bits(x, y) & 0xffffu32 == 0,
        (spec_loc_bits(x, y) >> 24u32) & 255u32 == x as u32,
        (spec_loc_bits(x, y) >> 16u32) & 255u32 == y as u32,
{
}

proof fn lemma_metal_only_bits(lb: u32, u: bool, r: bool, d: bool, l: bool)
    by (bit_vector)
    requires
        lb & 0xffffu32 == 0,
    ensures
        ({
            let m = spec_metal_bits(lb, u, r, d, l, false);
            &&& m & FLAG_METAL != 0
            &&& (m & FLAG_METAL_UP != 0) == u
            &&& (m & FLAG_METAL_RIGHT != 0) == r
            &&& (m & FLAG_METAL_DOWN != 0) == d
            &&& (m & FLAG_METAL_LEFT != 0) == l
            &&& m & FLAG_VIA == 0
            &&& (m >> 24u32) & 255u32 == (lb >> 24u32) & 255u32
            &&& (m >> 16u32) & 255u32 == (lb >> 16u32) & 255u32
        }),
{
}

proof fn lemma_via_bits(lb: u32, u: bool, r: bool, d: bool, l: bool, n: bool, su: bool, sr: bool, sd: bool, sl: bool)
    by (bit_vector)
    requires
        lb & 0xffffu32 == 0,
    ensures
        ({
            let m = spec_np_bits(spec_metal_bits(lb, u, r, d, l, true), n, su, sr, sd, sl);
            &&& m & FLAG_METAL != 0
            &&& (m & FLAG_METAL_UP != 0) == u
            &&& (m & FLAG_METAL_RIGHT != 0) == r
            &&& (m & FLAG_METAL_DOWN != 0) == d
            &&& (m & FLAG_METAL_LEFT != 0) == l
            &&& m & FLAG_VIA != 0
            &&& m & FLAG_SI_NP != 0
            &&& (m & FLAG_SI_N != 0) == n
            &&& (m & FLAG_SI_UP != 0) == su
            &&& (m & FLAG_SI_RIGHT != 0) == sr
            &&& (m & FLAG_SI_DOWN != 0) == sd
            &&& (m & FLAG_SI_LEFT != 0) == sl
            &&& (m >> 24u32) & 255u32 == (lb >> 24u32) & 255u32
            &&& (m >> 16u32) & 255u32 == (lb >> 16u32) & 255u32
        }),
{
}

proof fn lemma_np_only_bits(lb: u32, n: bool, su: bool, sr: bool, sd: bool, sl: bool)
    by (bit_vector)
    requires
        lb & 0xffffu32 == 0,
    ensures
        ({
            let m = spec_np_bits(lb, n, su, sr, sd, sl);
            &&& m & FLAG_METAL == 0
            &&& m & FLAG_SI_NP != 0
            &&& (m & FLAG_SI_N != 0) == n
            &&& (m & FLAG_SI_UP != 0) == su
            &&& (m & FLAG_SI_RIGHT != 0) == sr
            &&& (m & FLAG_SI_DOWN != 0) == sd
            &&& (m & FLAG_SI_LEFT != 0) == sl
            &&& (m >> 24u32) & 255u32 == (lb >> 24u32) & 255u32
            &&& (m >> 16u32) & 255u32 == (lb >> 16u32) & 255u32
        }),
{
}

proof fn lemma_mosfet_bits(lb: u32, n: bool, h: bool, ul: bool, dr: bool)
    by (bit_vector)
    requires
        lb & 0xffffu32 == 0,
    ensures
        ({
            let m = spec_mosfet_bits(lb, n, h, ul, dr);
            &&& m & FLAG_METAL == 0
            &&& m & FLAG_SI_NP == 0
            &&& m & FLAG_SI_MOSFET != 0
            &&& (m & FLAG_SI_N != 0) == n
            &&& (m & FLAG_SI_MOSFET_HORIZONTAL != 0) == h
            &&& (m & FLAG_SI_MOSFET_BASE_UL != 0) == ul
            &&& (m & FLAG_SI_MOSFET_BASE_DR != 0) == dr
            &&& (m >> 24u32) & 255u32 == (lb >> 24u32) & 255u32
            &&& (m >> 16u32) & 255u32 == (lb >> 16u32) & 255u32
        }),
{
}

proof fn lemma_zero_bits()
    by (bit_vector)
    ensures
        0u32 & FLAG_METAL == 0,
        0u32 & FLAG_SI_NP == 0,
        0u32 & FLAG_SI_MOSFET == 0,
{
}

/// A normalized cell that survives bit-packing relative to `anchor`: it is canonical, every
/// present layer's placement includes the center, a MOSFET gate runs along one axis only, metal
/// never sits over a MOSFET or over NP silicon without a via, and a non-empty cell lies within
/// 0..=255 of the anchor on both axes.
pub open spec fn spec_packable(nc: NormalizedCell, anchor: IVec2) -> bool {
    &&& spec_canonical(nc)
    &&& (nc.metal != Metal::Absent || nc.si != Silicon::Absent) ==> {
        &&& 0 <= nc.cell_loc.x - anchor.x <= 255
        &&& 0 <= nc.cell_loc.y - anchor.y <= 255
    }
    &&& match nc.metal {
        Metal::Trace { has_via, placement } => placement.center && (nc.si is NP ==> has_via) && !(nc.si is Mosfet),
        Metal::Absent => true,
    }
    &&& match nc.si {
        Silicon::NP { placement, .. } => placement.center,
        Silicon::Mosfet { gate_placement: g, .. } => g.center && !((g.up || g.down) && (g.left || g.right)),
        Silicon::Absent => true,
    }
}

/// Packing the atoms of a packable normalized cell into 4 bytes and unpacking them again
/// normalizes back to the same cell.
pub proof fn lemma_serialize_cell_roundtrip(nc: NormalizedCell, anchor: IVec2)
    requires
        spec_packable(nc, anchor),
    ensures
        spec_normalize(spec_deserialize_atoms(spec_serialize_cell(spec_to_atoms(nc), anchor), anchor)) == nc,
        spec_to_atoms(nc).len() > 0 ==> {
            let bits = spec_serialize_cell(spec_to_atoms(nc), anchor);
            &&& (bits >> 24u32) & 255u32 == nc.cell_loc.x - anchor.x
            &&& (bits >> 16u32) & 255u32 == nc.cell_loc.y - anchor.y
            &&& (bits & FLAG_METAL != 0 || bits & FLAG_SI_NP != 0 || bits & FLAG_SI_MOSFET != 0)
        },
{
    let atoms = spec_to_atoms(nc);
    reveal_with_fuel(spec_normalize, 4);
    reveal_with_fuel(spec_atoms_flags, 4);
    if atoms.len() == 0 {
        lemma_zero_bits();
        assert(spec_deserialize_atoms(0, anchor) =~= Seq::<Atom>::empty());
    } else {
        let loc = nc.cell_loc;
        let lx = (loc.x - anchor.x) as i32;
        let ly = (loc.y - anchor.y) as i32;
        let lb = spec_loc_bits(lx, ly);
        lemma_loc_bits(lx, ly);
        assert(atoms[0].cell_loc == loc);
        let bits = spec_serialize_cell(atoms, anchor);
        assert(bits == spec_atoms_flags(lb, atoms));
        match (nc.metal, nc.si) {
            (Metal::Trace { placement: mp, .. }, Silicon::Absent) => {
                assert(atoms.drop_last() =~= Seq::<Atom>::empty());
                assert(bits == spec_metal_bits(lb, mp.up, mp.right, mp.down, mp.left, false));
                lemma_metal_only_bits(lb, mp.up, mp.right, mp.down, mp.left);
                let out = spec_deserialize_atoms(bits, anchor);
                assert(out.drop_last() =~= Seq::<Atom>::empty());
            },
            (Metal::Trace { placement: mp, .. }, Silicon::NP { is_n, placement: sp }) => {
                assert(atoms.drop_last() =~= Seq::<Atom>::empty());
                assert(bits == spec_np_bits(spec_metal_bits(lb, mp.up, mp.right, mp.down, mp.left, true), is_n, sp.up, sp.right, sp.down, sp.left));
                lemma_via_bits(lb, mp.up, mp.right, mp.down, mp.left, is_n, sp.up, sp.right, sp.down, sp.left);
                let out = spec_deserialize_atoms(bits, anchor);
                assert(out.drop_last() =~= Seq::<Atom>::empty());
            },
            (Metal::Absent, Silicon::NP { is_n, placement: sp }) => {
                assert(atoms.drop_last() =~= Seq::<Atom>::empty());
                assert(bits == spec_np_bits(lb, is_n, sp.up, sp.right, sp.down, sp.left));
                lemma_np_only_bits(lb, is_n, sp.up, sp.right, sp.down, sp.left);
                let out = spec_deserialize_atoms(bits, anchor);
                assert(out.drop_last() =~= Seq::<Atom>::empty());
            },
            (Metal::Absent, Silicon::Mosfet { is_npn, gate_placement: g, ec_placement }) => {
                assert(atoms.drop_last() =~= seq![atoms[0], atoms[1]]);
                assert(seq![atoms[0], atoms[1]].drop_last() =~= seq![atoms[0]]);
                assert(seq![atoms[0]].drop_last() =~= Seq::<Atom>::empty());
                let b1 = spec_mosfet_bits(lb, !is_npn, g.up || g.down, g.up || g.left, g.down || g.right);
                assert(spec_atoms_flags(lb, seq![atoms[0]]) == b1);
                assert(spec_atoms_flags(lb, seq![atoms[0], atoms[1]]) == b1);
                assert(bits == b1);
                lemma_mosfet_bits(lb, !is_npn, g.up || g.down, g.up || g.left, g.down || g.right);
                let out = spec_deserialize_atoms(bits, anchor);
                assert(out.drop_last() =~= seq![out[0], out[1]]);
                assert(seq![out[0], out[1]].drop_last() =~= seq![out[0]]);
                assert(seq![out[0]].drop_last() =~= Seq::<Atom>::empty());
                assert(out[2].si == g);
            },
            _ => {},
        }
    }
}

} // verus!

verus! {

/// One chunk of a packed circuit: its chunk location and its cells, 4 bytes each.
pub struct CellChunkSurrogate {
    pub chunk_loc: IVec2,
    pub bit_packed_cells: Vec<u32>,
}

/// A packed circuit: its chunks of cells and its pin modules.
pub struct IntegratedCircuitSurrogate {
    pub chunks: Vec<CellChunkSurrogate>,
    pub pin_modules: Vec<PinModule>,
}

/// The first cell of the chunk `c`.
pub open spec fn spec_anchor(c: IVec2) -> IVec2 {
    IVec2 { x: (c.x * 128) as i32, y: (c.y * 128) as i32 }
}

/// The packed cells of the chunk `cl`: each cell of `cells` that lies in it, in order, packed
/// relative to the chunk's first cell.
pub open spec fn spec_pack_chunk(cells: Seq<CellEntry>, cl: IVec2) -> Seq<u32>
    decreases cells.len(),
{
    if cells.len() == 0 {
        Seq::empty()
    } else {
        let prev = spec_pack_chunk(cells.drop_last(), cl);
        let e = cells.last();
        if spec_chunk_of(e.loc) == cl {
            prev.push(spec_serialize_cell(cell_atoms(e.cell), spec_anchor(cl)))
        } else {
            prev
        }
    }
}

/// Some chunk of `chunks` has the chunk location `c`.
pub open spec fn spec_has_chunk_loc(chunks: Seq<CellChunkSurrogate>, c: IVec2) -> bool {
    exists|k: int| 0 <= k < chunks.len() && #[trigger] chunks[k].chunk_loc == c
}

/// Some cell of `cells` lies in the chunk `c`.
pub open spec fn spec_touches_chunk(cells: Seq<CellEntry>, c: IVec2) -> bool {
    exists|i: int| 0 <= i < cells.len() && spec_chunk_of(#[trigger] cells[i].loc) == c
}

/// The chunk location `c` is that of a chunk whose cells all have `i32` coordinates.
pub open spec fn spec_chunk_loc_in_range(c: IVec2) -> bool {
    -0x100_0000 <= c.x < 0x100_0000 && -0x100_0000 <= c.y < 0x100_0000
}

/// A chunk location is the chunk of a location, so its cells have `i32` coordinates.
proof fn lemma_chunk_of_in_range(loc: IVec2)
    ensures
        spec_chunk_loc_in_range(spec_chunk_of(loc)),
        0 <= loc.x - spec_chunk_of(loc).x * 128 < 128,
        0 <= loc.y - spec_chunk_of(loc).y * 128 < 128,
{
}

/// `chunks` is a packing of `cells`, as `pack_ic` makes it: one chunk for each chunk location that
/// holds a cell, each holding the packed cells of that chunk.
pub open spec fn spec_packs(cells: Seq<CellEntry>, chunks: Seq<CellChunkSurrogate>) -> bool {
    &&& forall|a: int, b: int| 0 <= a < chunks.len() && 0 <= b < chunks.len() && a != b
        ==> #[trigger] chunks[a].chunk_loc != #[trigger] chunks[b].chunk_loc
    &&& forall|c: IVec2| #[trigger] spec_has_chunk_loc(chunks, c) <==> spec_touches_chunk(cells, c)
    &&& forall|k: int| 0 <= k < chunks.len() ==> (#[trigger] chunks[k]).bit_packed_cells@ == spec_pack_chunk(cells, chunks[k].chunk_loc)
}

/// Packs a circuit: for each chunk that holds a cell, the chunk's cells packed relative to its
/// first cell (see `spec_pack_chunk`), and the pin modules.
pub fn pack_ic(ic: &IntegratedCircuit) -> (r: IntegratedCircuitSurrogate)
    requires
        spec_cells_valid(ic.cells@),
    ensures
        r.pin_modules@ == ic.pin_modules@,
        spec_packs(ic.cells@, r.chunks@),
{
    let locs = ic.chunk_locs();
    let mut chunks: Vec<CellChunkSurrogate> = Vec::new();
    let mut k: usize = 0;
    while k < locs.len()
        invariant
            spec_cells_valid(ic.cells@),
            locs@.no_duplicates(),
            forall|c: IVec2| #[trigger] locs@.contains(c) <==> exists|i: int| 0 <= i < ic.cells@.len() && spec_chunk_of(#[trigger] ic.cells@[i].loc) == c,
            k <= locs@.len(),
            chunks@.len() == k,
            forall|m: int| 0 <= m < k ==> (#[trigger] chunks@[m]).chunk_loc == locs@[m],
            forall|m: int| 0 <= m < k ==> (#[trigger] chunks@[m]).bit_packed_cells@ == spec_pack_chunk(ic.cells@, locs@[m]),
        decreases locs@.len() - k,
    {
        let cl = locs[k];
        proof {
            assert(locs@.contains(cl));
            let i = choose|i: int| 0 <= i < ic.cells@.len() && spec_chunk_of(#[trigger] ic.cells@[i].loc) == cl;
            lemma_chunk_of_in_range(ic.cells@[i].loc);
        }
        let anchor = crate::coords::ChunkCoord(cl).first_cell_coord().0;
        let mut bits: Vec<u32> = Vec::new();
        let mut i: usize = 0;
        while i < ic.cells.len()
            invariant
                spec_cells_valid(ic.cells@),
                spec_chunk_loc_in_range(cl),
                anchor == spec_anchor(cl),
                i <= ic.cells@.len(),
                bits@ == spec_pack_chunk(ic.cells@.take(i as int), cl),
            decreases ic.cells@.len() - i,
        {
            let e = &ic.cells[i];
            proof {
                assert(ic.cells@.take(i + 1).drop_last() =~= ic.cells@.take(i as int));
                assert(ic.cells@.take(i + 1).last() == ic.cells@[i as int]);
            }
            if crate::substrate::integrated_circuit::chunk_of_loc(e.loc) == cl {
                proof {
                    lemma_chunk_of_in_range(e.loc);
                    if cell_atoms(e.cell).len() > 0 {
                        assert(cell_atoms(ic.cells@[i as int].cell)[0].cell_loc == e.loc);
                    }
                }
                bits.push(serialize_cell(&e.cell, &anchor));
            }
            i = i + 1;
        }
        proof {
            assert(ic.cells@.take(ic.cells@.len() as int) =~= ic.cells@);
        }
        chunks.push(CellChunkSurrogate { chunk_loc: cl, bit_packed_cells: bits });
        k = k + 1;
    }
    let mut pin_modules: Vec<PinModule> = Vec::new();
    let mut m: usize = 0;
    while m < ic.pin_modules.len()
        invariant
            m <= ic.pin_modules@.len(),
            pin_modules@ =~= ic.pin_modules@.take(m as int),
        decreases ic.pin_modules@.len() - m,
    {
        pin_modules.push(ic.pin_modules[m].clone());
        m = m + 1;
    }
    proof {
        assert(ic.pin_modules@.take(ic.pin_modules@.len() as int) =~= ic.pin_modules@);
        assert forall|c: IVec2| #[trigger] spec_has_chunk_loc(chunks@, c) <==> spec_touches_chunk(ic.cells@, c) by {
            if exists|k: int| 0 <= k < chunks@.len() && #[trigger] chunks@[k].chunk_loc == c {
                let k = choose|k: int| 0 <= k < chunks@.len() && #[trigger] chunks@[k].chunk_loc == c;
                assert(locs@[k] == c);
                assert(locs@.contains(c));
            }
            if exists|i: int| 0 <= i < ic.cells@.len() && spec_chunk_of(#[trigger] ic.cells@[i].loc) == c {
                assert(locs@.contains(c));
                let k = choose|k: int| 0 <= k < locs@.len() && locs@[k] == c;
                assert(chunks@[k].chunk_loc == c);
            }
        }
        assert forall|a: int, b: int| 0 <= a < chunks@.len() && 0 <= b < chunks@.len() && a != b
            implies #[trigger] chunks@[a].chunk_loc != #[trigger] chunks@[b].chunk_loc by {
            assert(locs@[a] != locs@[b]);
        }
    }
    IntegratedCircuitSurrogate { chunks, pin_modules }
}


/// The last chunk of `chunks` at the chunk location `cl`, if any.
pub open spec fn spec_chunk_lookup(chunks: Seq<CellChunkSurrogate>, cl: IVec2) -> Option<CellChunkSurrogate>
    decreases chunks.len(),
{
    if chunks.len() == 0 {
        None
    } else if chunks.last().chunk_loc == cl {
        Some(chunks.last())
    } else {
        spec_chunk_lookup(chunks.drop_last(), cl)
    }
}

/// The atoms of the last of the packed cells `bits` (relative to `anchor`) that lies at `loc`.
pub open spec fn spec_chunk_cell_at(bits: Seq<u32>, anchor: IVec2, loc: IVec2) -> Option<Seq<Atom>>
    decreases bits.len(),
{
    if bits.len() == 0 {
        None
    } else if spec_unpacked_loc(bits.last(), anchor) == loc {
        Some(spec_deserialize_atoms(bits.last(), anchor))
    } else {
        spec_chunk_cell_at(bits.drop_last(), anchor, loc)
    }
}

/// The atoms that unpacking `chunks` places at `loc`: the last cell at `loc` of the last chunk at
/// the chunk location of `loc`.
pub open spec fn spec_unpacked_at(chunks: Seq<CellChunkSurrogate>, loc: IVec2) -> Option<Seq<Atom>> {
    match spec_chunk_lookup(chunks, spec_chunk_of(loc)) {
        Some(c) => spec_chunk_cell_at(c.bit_packed_cells@, spec_anchor(c.chunk_loc), loc),
        None => None,
    }
}

/// The packed cell holds an atom and lies within its chunk.
pub open spec fn spec_packed_cell_ok(bits: u32) -> bool {
    &&& (bits >> 24u32) & 255u32 < 128
    &&& (bits >> 16u32) & 255u32 < 128
    &&& (bits & FLAG_METAL != 0 || bits & FLAG_SI_NP != 0 || bits & FLAG_SI_MOSFET != 0)
}

/// Every chunk location is in range and every packed cell holds an atom within its chunk.
pub open spec fn spec_unpack_ok(chunks: Seq<CellChunkSurrogate>) -> bool {
    &&& forall|k: int| 0 <= k < chunks.len() ==> spec_chunk_loc_in_range((#[trigger] chunks[k]).chunk_loc)
    &&& forall|k: int, j: int| 0 <= k < chunks.len() && 0 <= j < chunks[k].bit_packed_cells@.len()
        ==> spec_packed_cell_ok(#[trigger] chunks[k].bit_packed_cells@[j])
}

/// No later chunk has the chunk location of the `k`-th.
pub open spec fn spec_final_chunk(chunks: Seq<CellChunkSurrogate>, k: int) -> bool {
    forall|m: int| k < m < chunks.len() ==> #[trigger] chunks[m].chunk_loc != chunks[k].chunk_loc
}

/// What the chunks before the `k`-th that are the last at their chunk location place at `loc`.
pub open spec fn spec_unpacked_upto(chunks: Seq<CellChunkSurrogate>, k: int, loc: IVec2) -> Option<Seq<Atom>> {
    if exists|m: int| 0 <= m < k && spec_final_chunk(chunks, m) && #[trigger] chunks[m].chunk_loc == spec_chunk_of(loc) {
        let m = choose|m: int| 0 <= m < k && spec_final_chunk(chunks, m) && #[trigger] chunks[m].chunk_loc == spec_chunk_of(loc);
        spec_chunk_cell_at(chunks[m].bit_packed_cells@, spec_anchor(chunks[m].chunk_loc), loc)
    } else {
        None
    }
}

/// The last chunk at a chunk location is the one that is final there.
proof fn lemma_chunk_lookup(chunks: Seq<CellChunkSurrogate>, cl: IVec2)
    ensures
        spec_chunk_lookup(chunks, cl) matches Some(c) ==> exists|m: int| 0 <= m < chunks.len() && spec_final_chunk(chunks, m)
            && #[trigger] chunks[m] == c && c.chunk_loc == cl,
        spec_chunk_lookup(chunks, cl) is None ==> forall|m: int| 0 <= m < chunks.len() ==> #[trigger] chunks[m].chunk_loc != cl,
    decreases chunks.len(),
{
    if chunks.len() > 0 {
        let n = chunks.len() - 1;
        let d = chunks.drop_last();
        if chunks.last().chunk_loc == cl {
            assert(chunks[n] == chunks.last());
        } else {
            lemma_chunk_lookup(d, cl);
            if let Some(c) = spec_chunk_lookup(chunks, cl) {
                let m = choose|m: int| 0 <= m < d.len() && spec_final_chunk(d, m) && #[trigger] d[m] == c && c.chunk_loc == cl;
                assert(chunks[m] == d[m]);
                assert forall|m2: int| m < m2 < chunks.len() implies #[trigger] chunks[m2].chunk_loc != chunks[m].chunk_loc by {
                    if m2 < n {
                        assert(chunks[m2] == d[m2]);
                    }
                }
            } else {
                assert forall|m: int| 0 <= m < chunks.len() implies #[trigger] chunks[m].chunk_loc != cl by {
                    if m < n {
                        assert(chunks[m] == d[m]);
                    }
                }
            }
        }
    }
}

/// Whether `spec_unpack_ok` holds.
fn unpack_ok(chunks: &Vec<CellChunkSurrogate>) -> (r: bool)
    ensures
        r == spec_unpack_ok(chunks@),
{
    let mut k: usize = 0;
    while k < chunks.len()
        invariant
            k <= chunks@.len(),
            forall|k2: int| 0 <= k2 < k ==> spec_chunk_loc_in_range((#[trigger] chunks@[k2]).chunk_loc),
            forall|k2: int, j: int| 0 <= k2 < k && 0 <= j < chunks@[k2].bit_packed_cells@.len()
                ==> spec_packed_cell_ok(#[trigger] chunks@[k2].bit_packed_cells@[j]),
        decreases chunks@.len() - k,
    {
        let c = &chunks[k];
        if !(-0x100_0000 <= c.chunk_loc.x && c.chunk_loc.x < 0x100_0000 && -0x100_0000 <= c.chunk_loc.y && c.chunk_loc.y < 0x100_0000) {
            return false;
        }
        let mut j: usize = 0;
        while j < c.bit_packed_cells.len()
            invariant
                k < chunks@.len(),
                *c == chunks@[k as int],
                j <= c.bit_packed_cells@.len(),
                forall|j2: int| 0 <= j2 < j ==> spec_packed_cell_ok(#[trigger] c.bit_packed_cells@[j2]),
            decreases c.bit_packed_cells@.len() - j,
        {
            let bits = c.bit_packed_cells[j];
            if !((bits >> 24u32) & 255u32 < 128 && (bits >> 16u32) & 255u32 < 128
                && (bits & FLAG_METAL != 0 || bits & FLAG_SI_NP != 0 || bits & FLAG_SI_MOSFET != 0)) {
                return false;
            }
            j = j + 1;
        }
        k = k + 1;
    }
    true
}

/// Whether no later chunk has the chunk location of the `k`-th.
fn final_chunk(chunks: &Vec<CellChunkSurrogate>, k: usize) -> (r: bool)
    requires
        k < chunks@.len(),
    ensures
        r == spec_final_chunk(chunks@, k as int),
{
    let n = chunks.len();
    let mut m: usize = k + 1;
    while m < n
        invariant
            n == chunks@.len(),
            k < m <= n,
            forall|m2: int| k < m2 < m ==> #[trigger] chunks@[m2].chunk_loc != chunks@[k as int].chunk_loc,
        decreases n - m,
    {
        if chunks[m].chunk_loc == chunks[k].chunk_loc {
            return false;
        }
        m = m + 1;
    }
    true
}

/// Unpacks a packed circuit: each cell of each chunk (a later chunk at the same chunk location
/// replaces an earlier one, and a later cell at the same location an earlier one), then the pin
/// modules, then compiles the traces and gates. Gives nothing when a chunk location is out of
/// range, a packed cell holds no atom or lies outside its chunk, or the cells do not form a valid
/// circuit.
pub fn unpack_ic(s: IntegratedCircuitSurrogate) -> (r: Option<IntegratedCircuit>)
    ensures
        r is Some <==> spec_unpack_ok(s.chunks@) && spec_map_valid(|l: IVec2| spec_unpacked_at(s.chunks@, l)),
        r matches Some(ic) ==> {
            &&& ic.wf()
            &&& spec_compiled(ic)
            &&& ic.pin_modules@ == s.pin_modules@
            &&& forall|l: IVec2| #[trigger] spec_cell_at(ic.cells@, l) == spec_unpacked_at(s.chunks@, l)
        },
{
    if !unpack_ok(&s.chunks) {
        return None;
    }
    let IntegratedCircuitSurrogate { chunks, pin_modules } = s;
    let ghost cv = chunks@;
    let mut ic = IntegratedCircuit::default();
    ic.pin_modules = pin_modules;
    let mut k: usize = 0;
    while k < chunks.len()
        invariant
            cv == chunks@,
            spec_unpack_ok(cv),
            k <= cv.len(),
            spec_locs_distinct(ic.cells@),
            ic.pin_modules@ == s.pin_modules@,
            forall|l: IVec2| #[trigger] spec_cell_at(ic.cells@, l) == spec_unpacked_upto(cv, k as int, l),
        decreases cv.len() - k,
    {
        let ghost before = ic.cells@;
        if final_chunk(&chunks, k) {
            let cl = chunks[k].chunk_loc;
            proof {
                assert(spec_chunk_loc_in_range(cv[k as int].chunk_loc));
            }
            let anchor = crate::coords::ChunkCoord(cl).first_cell_coord().0;
            let bits = &chunks[k].bit_packed_cells;
            let mut j: usize = 0;
            while j < bits.len()
                invariant
                    cv == chunks@,
                    spec_unpack_ok(cv),
                    k < cv.len(),
                    *bits == cv[k as int].bit_packed_cells,
                    cl == cv[k as int].chunk_loc,
                    spec_final_chunk(cv, k as int),
                    spec_chunk_loc_in_range(cl),
                    anchor == spec_anchor(cl),
                    j <= bits@.len(),
                    spec_locs_distinct(ic.cells@),
                    ic.pin_modules@ == s.pin_modules@,
                    forall|l: IVec2| #[trigger] spec_cell_at(ic.cells@, l) == if spec_chunk_of(l) == cl {
                        spec_chunk_cell_at(bits@.take(j as int), anchor, l)
                    } else {
                        spec_unpacked_upto(cv, k as int, l)
                    },
                decreases bits@.len() - j,
            {
                let b = bits[j];
                proof {
                    assert(spec_packed_cell_ok(cv[k as int].bit_packed_cells@[j as int]));
                    assert((b >> 24u32) & 255u32 < 128 && (b >> 16u32) & 255u32 < 128);
                }
                let cell = deserialize_cell(b, &anchor);
                let loc = cell_get(&cell, 0).cell_loc;
                proof {
                    let ox = (b >> 24u32) & 255u32;
                    let oy = (b >> 16u32) & 255u32;
                    assert(loc == spec_unpacked_loc(b, anchor));
                    assert(spec_chunk_of(loc) == cl) by (nonlinear_arith)
                        requires
                            loc.x == ox + cl.x * 128,
                            loc.y == oy + cl.y * 128,
                            0 <= ox < 128,
                            0 <= oy < 128,
                    ;
                    let t = bits@.take(j + 1);
                    assert(t.drop_last() =~= bits@.take(j as int));
                    assert(t.last() == b);
                }
                let ghost c0 = ic.cells@;
                ic.set_cell(loc, cell);
                proof {
                    assert forall|l: IVec2| #[trigger] spec_cell_at(ic.cells@, l) == if spec_chunk_of(l) == cl {
                        spec_chunk_cell_at(bits@.take(j + 1), anchor, l)
                    } else {
                        spec_unpacked_upto(cv, k as int, l)
                    } by {
                        lemma_set_cell_at(c0, CellEntry { loc, cell }, l);
                    }
                }
                j = j + 1;
            }
            proof {
                assert(bits@.take(bits@.len() as int) =~= bits@);
                assert forall|l: IVec2| #[trigger] spec_cell_at(ic.cells@, l) == spec_unpacked_upto(cv, k + 1, l) by {
                    if spec_chunk_of(l) == cl {
                        assert(spec_final_chunk(cv, k as int) && cv[k as int].chunk_loc == spec_chunk_of(l));
                        let m = choose|m: int| 0 <= m < k + 1 && spec_final_chunk(cv, m) && #[trigger] cv[m].chunk_loc == spec_chunk_of(l);
                        if m != k {
                            assert(cv[k as int].chunk_loc != cv[m].chunk_loc);
                        }
                        if exists|m2: int| 0 <= m2 < k && spec_final_chunk(cv, m2) && #[trigger] cv[m2].chunk_loc == spec_chunk_of(l) {
                            let m2 = choose|m2: int| 0 <= m2 < k && spec_final_chunk(cv, m2) && #[trigger] cv[m2].chunk_loc == spec_chunk_of(l);
                            assert(cv[k as int].chunk_loc != cv[m2].chunk_loc);
                        }
                    } else {
                        lemma_upto_step(cv, k as int, l);
                    }
                }
            }
        } else {
            proof {
                assert forall|l: IVec2| #[trigger] spec_cell_at(ic.cells@, l) == spec_unpacked_upto(cv, k + 1, l) by {
                    lemma_upto_step(cv, k as int, l);
                }
            }
        }
        k = k + 1;
    }
    proof {
        assert forall|l: IVec2| #[trigger] spec_cell_at(ic.cells@, l) == spec_unpacked_at(cv, l) by {
            lemma_chunk_lookup(cv, spec_chunk_of(l));
            if let Some(c) = spec_chunk_lookup(cv, spec_chunk_of(l)) {
                let m = choose|m: int| 0 <= m < cv.len() && spec_final_chunk(cv, m) && #[trigger] cv[m] == c && c.chunk_loc == spec_chunk_of(l);
                assert(spec_final_chunk(cv, m) && cv[m].chunk_loc == spec_chunk_of(l));
                let m2 = choose|m2: int| 0 <= m2 < cv.len() && spec_final_chunk(cv, m2) && #[trigger] cv[m2].chunk_loc == spec_chunk_of(l);
                if m2 < m {
                    assert(cv[m].chunk_loc != cv[m2].chunk_loc);
                } else if m < m2 {
                    assert(cv[m2].chunk_loc != cv[m].chunk_loc);
                }
            } else {
                if exists|m: int| 0 <= m < cv.len() && spec_final_chunk(cv, m) && #[trigger] cv[m].chunk_loc == spec_chunk_of(l) {
                    let m = choose|m: int| 0 <= m < cv.len() && spec_final_chunk(cv, m) && #[trigger] cv[m].chunk_loc == spec_chunk_of(l);
                }
            }
        }
        crate::substrate::integrated_circuit::lemma_cells_valid_map(ic.cells@);
        assert((|l: IVec2| spec_cell_at(ic.cells@, l)) =~= (|l: IVec2| spec_unpacked_at(cv, l)));
    }
    if !IntegratedCircuit::cells_valid(&ic.cells) {
        return None;
    }
    ic.rebuild_traces_and_gates();
    Some(ic)
}

/// A chunk that is not the last at its chunk location, or a location outside its chunk, leaves
/// what the chunks up to it place unchanged.
proof fn lemma_upto_step(chunks: Seq<CellChunkSurrogate>, k: int, l: IVec2)
    requires
        0 <= k < chunks.len(),
        !spec_final_chunk(chunks, k) || chunks[k].chunk_loc != spec_chunk_of(l),
    ensures
        spec_unpacked_upto(chunks, k + 1, l) == spec_unpacked_upto(chunks, k, l),
{
    if exists|m: int| 0 <= m < k + 1 && spec_final_chunk(chunks, m) && #[trigger] chunks[m].chunk_loc == spec_chunk_of(l) {
        let m = choose|m: int| 0 <= m < k + 1 && spec_final_chunk(chunks, m) && #[trigger] chunks[m].chunk_loc == spec_chunk_of(l);
        assert(m != k);
        assert(exists|m2: int| 0 <= m2 < k && spec_final_chunk(chunks, m2) && #[trigger] chunks[m2].chunk_loc == spec_chunk_of(l));
    }
}


/// The cell `e` holds the atoms of a normalized cell at its location that survives bit-packing
/// relative to the first cell of its chunk (see `spec_packable`).
pub open spec fn spec_entry_packable(e: CellEntry) -> bool {
    let nc = spec_normalize(cell_atoms(e.cell));
    &&& cell_atoms(e.cell) == spec_to_atoms(nc)
    &&& cell_atoms(e.cell).len() > 0
    &&& nc.cell_loc == e.loc
    &&& spec_packable(nc, spec_anchor(spec_chunk_of(e.loc)))
}

/// Packing a packable cell relative to its chunk's first cell keeps its location and gives a
/// packed cell that unpacks.
proof fn lemma_entry_bits(e: CellEntry)
    requires
        spec_entry_packable(e),
    ensures
        ({
            let anchor = spec_anchor(spec_chunk_of(e.loc));
            let bits = spec_serialize_cell(cell_atoms(e.cell), anchor);
            &&& spec_unpacked_loc(bits, anchor) == e.loc
            &&& spec_packed_cell_ok(bits)
            &&& spec_normalize(spec_deserialize_atoms(bits, anchor)) == spec_normalize(cell_atoms(e.cell))
        }),
{
    let nc = spec_normalize(cell_atoms(e.cell));
    let anchor = spec_anchor(spec_chunk_of(e.loc));
    lemma_chunk_of_in_range(e.loc);
    lemma_serialize_cell_roundtrip(nc, anchor);
}

/// In cells with distinct locations, a location other than the last cell's finds the same cell
/// without the last cell.
proof fn lemma_cell_at_drop_last(cells: Seq<CellEntry>, l: IVec2)
    requires
        spec_locs_distinct(cells),
        cells.len() > 0,
        cells.last().loc != l,
    ensures
        spec_cell_at(cells, l) == spec_cell_at(cells.drop_last(), l),
{
    let d = cells.drop_last();
    assert(spec_locs_distinct(d)) by {
        assert forall|i: int, j: int| 0 <= i < d.len() && 0 <= j < d.len() && i != j implies #[trigger] d[i].loc != #[trigger] d[j].loc by {
            assert(d[i] == cells[i] && d[j] == cells[j]);
        }
    }
    lemma_cell_at_entry(cells, l);
    lemma_cell_at_entry(d, l);
    if spec_cell_at(cells, l) is Some {
        let i = choose|i: int| 0 <= i < cells.len() && (#[trigger] cells[i]).loc == l && cell_atoms(cells[i].cell) == spec_cell_at(cells, l)->0;
        assert(i < d.len());
        assert(d[i] == cells[i]);
        lemma_cell_at_distinct(d, i);
    } else if spec_cell_at(d, l) is Some {
        let i = choose|i: int| 0 <= i < d.len() && (#[trigger] d[i]).loc == l && cell_atoms(d[i].cell) == spec_cell_at(d, l)->0;
        assert(cells[i] == d[i]);
    }
}

/// The packed cells of the chunk `cl` hold, for each location `l` in it, the packed form of the
/// cell at `l`, found at `l` on unpacking.
proof fn lemma_pack_chunk_cell_at(cells: Seq<CellEntry>, cl: IVec2, l: IVec2)
    requires
        spec_locs_distinct(cells),
        forall|i: int| 0 <= i < cells.len() ==> spec_entry_packable(#[trigger] cells[i]),
        spec_chunk_of(l) == cl,
    ensures
        spec_chunk_cell_at(spec_pack_chunk(cells, cl), spec_anchor(cl), l) == (match spec_cell_at(cells, l) {
            Some(a) => Some(spec_deserialize_atoms(spec_serialize_cell(a, spec_anchor(cl)), spec_anchor(cl))),
            None => None,
        }),
        forall|j: int| 0 <= j < spec_pack_chunk(cells, cl).len() ==> spec_packed_cell_ok(#[trigger] spec_pack_chunk(cells, cl)[j]),
    decreases cells.len(),
{
    if cells.len() == 0 {
        return;
    }
    let n = cells.len() - 1;
    let d = cells.drop_last();
    let e = cells.last();
    assert(spec_locs_distinct(d)) by {
        assert forall|i: int, j: int| 0 <= i < d.len() && 0 <= j < d.len() && i != j implies #[trigger] d[i].loc != #[trigger] d[j].loc by {
            assert(d[i] == cells[i] && d[j] == cells[j]);
        }
    }
    assert forall|i: int| 0 <= i < d.len() implies spec_entry_packable(#[trigger] d[i]) by {
        assert(d[i] == cells[i]);
    }
    lemma_pack_chunk_cell_at(d, cl, l);
    assert(cells[n] == e);
    assert(spec_entry_packable(e));
    lemma_entry_bits(e);
    let prev = spec_pack_chunk(d, cl);
    if spec_chunk_of(e.loc) == cl {
        let b = spec_serialize_cell(cell_atoms(e.cell), spec_anchor(cl));
        let packed = prev.push(b);
        assert(spec_pack_chunk(cells, cl) == packed);
        assert(packed.drop_last() =~= prev);
        assert forall|j: int| 0 <= j < packed.len() implies spec_packed_cell_ok(#[trigger] packed[j]) by {
            if j < prev.len() {
                assert(packed[j] == prev[j]);
            }
        }
        if e.loc == l {
            lemma_cell_at_distinct(cells, n);
        } else {
            lemma_cell_at_drop_last(cells, l);
        }
    } else {
        lemma_cell_at_drop_last(cells, l);
    }
}

/// Every chunk location of a packing is in range and every packed cell in it unpacks.
proof fn lemma_packs_unpack_ok(cells: Seq<CellEntry>, chunks: Seq<CellChunkSurrogate>)
    requires
        spec_locs_distinct(cells),
        forall|i: int| 0 <= i < cells.len() ==> spec_entry_packable(#[trigger] cells[i]),
        spec_packs(cells, chunks),
    ensures
        spec_unpack_ok(chunks),
{
    assert forall|k: int| 0 <= k < chunks.len() implies spec_chunk_loc_in_range((#[trigger] chunks[k]).chunk_loc) by {
        let c = chunks[k].chunk_loc;
        assert(spec_has_chunk_loc(chunks, c));
        let i = choose|i: int| 0 <= i < cells.len() && spec_chunk_of(#[trigger] cells[i].loc) == c;
        lemma_chunk_of_in_range(cells[i].loc);
    }
    assert forall|k: int, j: int| 0 <= k < chunks.len() && 0 <= j < chunks[k].bit_packed_cells@.len()
        implies spec_packed_cell_ok(#[trigger] chunks[k].bit_packed_cells@[j]) by {
        let c = chunks[k].chunk_loc;
        lemma_pack_chunk_cell_at(cells, c, IVec2 { x: (c.x * 128) as i32, y: (c.y * 128) as i32 });
    }
}

/// What a packing places at `l` on unpacking is the packed and unpacked cell that was at `l`.
proof fn lemma_packs_unpacked_at(cells: Seq<CellEntry>, chunks: Seq<CellChunkSurrogate>, l: IVec2)
    requires
        spec_locs_distinct(cells),
        forall|i: int| 0 <= i < cells.len() ==> spec_entry_packable(#[trigger] cells[i]),
        spec_packs(cells, chunks),
    ensures
        spec_unpacked_at(chunks, l) == (match spec_cell_at(cells, l) {
            Some(a) => Some(spec_deserialize_atoms(spec_serialize_cell(a, spec_anchor(spec_chunk_of(l))), spec_anchor(spec_chunk_of(l)))),
            None => None,
        }),
{
    let cl = spec_chunk_of(l);
    lemma_chunk_lookup(chunks, cl);
    lemma_cell_at_entry(cells, l);
    match spec_chunk_lookup(chunks, cl) {
        Some(c) => {
            let m = choose|m: int| 0 <= m < chunks.len() && spec_final_chunk(chunks, m) && #[trigger] chunks[m] == c && c.chunk_loc == cl;
            assert(c.bit_packed_cells@ == spec_pack_chunk(cells, cl));
            lemma_pack_chunk_cell_at(cells, cl, l);
        },
        None => {
            if spec_cell_at(cells, l) is Some {
                let i = choose|i: int| 0 <= i < cells.len() && (#[trigger] cells[i]).loc == l && cell_atoms(cells[i].cell) == spec_cell_at(cells, l)->0;
                assert(spec_touches_chunk(cells, cl));
                assert(spec_has_chunk_loc(chunks, cl));
                let k = choose|k: int| 0 <= k < chunks.len() && #[trigger] chunks[k].chunk_loc == cl;
                assert(false);
            }
        },
    }
}

/// Unpacking a packed circuit gives its cells back: every packed cell unpacks, a location holds a
/// cell after unpacking exactly when it held one before, and that cell normalizes to the same
/// normalized cell as before.
pub proof fn lemma_pack_unpack_roundtrip(cells: Seq<CellEntry>, chunks: Seq<CellChunkSurrogate>)
    requires
        spec_cells_valid(cells),
        forall|i: int| 0 <= i < cells.len() ==> spec_entry_packable(#[trigger] cells[i]),
        spec_packs(cells, chunks),
    ensures
        spec_unpack_ok(chunks),
        forall|l: IVec2| (#[trigger] spec_unpacked_at(chunks, l) is Some) == (spec_cell_at(cells, l) is Some),
        forall|l: IVec2| spec_cell_at(cells, l) is Some
            ==> spec_normalize(#[trigger] spec_unpacked_at(chunks, l)->0) == spec_normalize(spec_cell_at(cells, l)->0),
{
    assert(spec_locs_distinct(cells));
    lemma_packs_unpack_ok(cells, chunks);
    assert forall|l: IVec2| #![trigger spec_unpacked_at(chunks, l)]
        ((spec_unpacked_at(chunks, l) is Some) == (spec_cell_at(cells, l) is Some))
        && (spec_cell_at(cells, l) is Some ==> spec_normalize(spec_unpacked_at(chunks, l)->0) == spec_normalize(spec_cell_at(cells, l)->0)) by {
        lemma_packs_unpacked_at(cells, chunks, l);
        lemma_cell_at_entry(cells, l);
        if spec_cell_at(cells, l) is Some {
            let i = choose|i: int| 0 <= i < cells.len() && (#[trigger] cells[i]).loc == l && cell_atoms(cells[i].cell) == spec_cell_at(cells, l)->0;
            lemma_entry_bits(cells[i]);
        }
    }
}

/// A packed valid circuit unpacks to a valid circuit, so that `unpack_ic` gives a circuit back
/// for what `pack_ic` makes, as long as every MOSFET gate reaches out in some direction.
pub proof fn lemma_pack_unpack_valid(cells: Seq<CellEntry>, chunks: Seq<CellChunkSurrogate>)
    requires
        spec_cells_valid(cells),
        forall|i: int| 0 <= i < cells.len() ==> spec_entry_packable(#[trigger] cells[i]),
        forall|i: int| 0 <= i < cells.len() ==> spec_gate_directed(spec_normalize(cell_atoms(#[trigger] cells[i].cell))),
        spec_packs(cells, chunks),
    ensures
        spec_unpack_ok(chunks),
        spec_map_valid(|l: IVec2| spec_unpacked_at(chunks, l)),
{
    assert(spec_locs_distinct(cells));
    lemma_packs_unpack_ok(cells, chunks);
    let m = |l: IVec2| spec_unpacked_at(chunks, l);
    assert forall|loc: IVec2, k: int| #![trigger m(loc), m(loc)->0[k]]
        m(loc) is Some && 0 <= k < m(loc)->0.len() implies spec_atom_valid_in(m, loc, m(loc)->0[k], m(loc)->0) by {
        lemma_packs_unpacked_at(cells, chunks, loc);
        lemma_cell_at_entry(cells, loc);
        let i = choose|i: int| 0 <= i < cells.len() && (#[trigger] cells[i]).loc == loc && cell_atoms(cells[i].cell) == spec_cell_at(cells, loc)->0;
        let a = cell_atoms(cells[i].cell);
        let nc = spec_normalize(a);
        let out = m(loc)->0;
        lemma_chunk_of_in_range(loc);
        lemma_deserialize_same_atoms(nc, spec_anchor(spec_chunk_of(loc)));
        assert(out == spec_deserialize_atoms(spec_serialize_cell(spec_to_atoms(nc), spec_anchor(spec_chunk_of(loc))), spec_anchor(spec_chunk_of(loc))));
        let j = choose|j: int| 0 <= j < a.len() && #[trigger] a[j] == #[trigger] out[k];
        assert(spec_atom_valid(cells, loc, a[j], a));
        assert forall|d: IVec2| #[trigger] spec_atom_dirs(out[k]).contains(d) implies spec_step_in_range(loc, d) && m(spec_step(loc, d)) is Some by {
            lemma_packs_unpacked_at(cells, chunks, spec_step(loc, d));
        }
        if out[k].mosfet_part == MosfetPart::Base {
            let m1 = choose|m1: int| 0 <= m1 < a.len() && #[trigger] a[m1].mosfet_part == MosfetPart::LeftEC;
            let k1 = choose|k1: int| 0 <= k1 < out.len() && #[trigger] out[k1] == #[trigger] a[m1];
            assert(out[k1].mosfet_part == MosfetPart::LeftEC);
            let m2 = choose|m2: int| 0 <= m2 < a.len() && #[trigger] a[m2].mosfet_part == MosfetPart::RightEC;
            let k2 = choose|k2: int| 0 <= k2 < out.len() && #[trigger] out[k2] == #[trigger] a[m2];
            assert(out[k2].mosfet_part == MosfetPart::RightEC);
        }
        if out[k].metal != Placement::spec_none() {
            assert forall|j2: int| 0 <= j2 < out.len() && #[trigger] out[j2].metal != Placement::spec_none() implies out[j2] == out[k] by {
                let j3 = choose|j3: int| 0 <= j3 < a.len() && #[trigger] a[j3] == #[trigger] out[j2];
            }
        }
    }
}

/// `a` and `b` hold the same atoms, each possibly in another place.
pub open spec fn spec_same_atoms(a: Seq<Atom>, b: Seq<Atom>) -> bool {
    &&& forall|k: int| 0 <= k < a.len() ==> exists|j: int| 0 <= j < b.len() && #[trigger] b[j] == #[trigger] a[k]
    &&& forall|j: int| 0 <= j < b.len() ==> exists|k: int| 0 <= k < a.len() && #[trigger] a[k] == #[trigger] b[j]
}

/// A MOSFET in `nc` has a gate that reaches out in some direction.
pub open spec fn spec_gate_directed(nc: NormalizedCell) -> bool {
    nc.si matches Silicon::Mosfet { gate_placement: g, .. } ==> g.up || g.down || g.left || g.right
}

/// Packing the atoms of a packable normalized cell whose MOSFET gate (if any) reaches out in some
/// direction and unpacking them gives the same atoms, the MOSFET's in another order.
proof fn lemma_deserialize_same_atoms(nc: NormalizedCell, anchor: IVec2)
    requires
        spec_packable(nc, anchor),
        spec_gate_directed(nc),
    ensures
        spec_same_atoms(spec_deserialize_atoms(spec_serialize_cell(spec_to_atoms(nc), anchor), anchor), spec_to_atoms(nc)),
{
    let atoms = spec_to_atoms(nc);
    reveal_with_fuel(spec_atoms_flags, 4);
    if atoms.len() == 0 {
        lemma_zero_bits();
        assert(spec_deserialize_atoms(0, anchor) =~= Seq::<Atom>::empty());
    } else {
        let loc = nc.cell_loc;
        let lx = (loc.x - anchor.x) as i32;
        let ly = (loc.y - anchor.y) as i32;
        let lb = spec_loc_bits(lx, ly);
        lemma_loc_bits(lx, ly);
        assert(atoms[0].cell_loc == loc);
        let bits = spec_serialize_cell(atoms, anchor);
        assert(bits == spec_atoms_flags(lb, atoms));
        let out = spec_deserialize_atoms(bits, anchor);
        match (nc.metal, nc.si) {
            (Metal::Trace { placement: mp, .. }, Silicon::Absent) => {
                assert(atoms.drop_last() =~= Seq::<Atom>::empty());
                lemma_metal_only_bits(lb, mp.up, mp.right, mp.down, mp.left);
                assert(out =~= atoms);
            },
            (Metal::Trace { placement: mp, .. }, Silicon::NP { is_n, placement: sp }) => {
                assert(atoms.drop_last() =~= Seq::<Atom>::empty());
                lemma_via_bits(lb, mp.up, mp.right, mp.down, mp.left, is_n, sp.up, sp.right, sp.down, sp.left);
                assert(out =~= atoms);
            },
            (Metal::Absent, Silicon::NP { is_n, placement: sp }) => {
                assert(atoms.drop_last() =~= Seq::<Atom>::empty());
                lemma_np_only_bits(lb, is_n, sp.up, sp.right, sp.down, sp.left);
                assert(out =~= atoms);
            },
            (Metal::Absent, Silicon::Mosfet { is_npn, gate_placement: g, ec_placement }) => {
                assert(atoms.drop_last() =~= seq![atoms[0], atoms[1]]);
                assert(seq![atoms[0], atoms[1]].drop_last() =~= seq![atoms[0]]);
                assert(seq![atoms[0]].drop_last() =~= Seq::<Atom>::empty());
                let b1 = spec_mosfet_bits(lb, !is_npn, g.up || g.down, g.up || g.left, g.down || g.right);
                assert(spec_atoms_flags(lb, seq![atoms[0]]) == b1);
                assert(spec_atoms_flags(lb, seq![atoms[0], atoms[1]]) == b1);
                assert(bits == b1);
                lemma_mosfet_bits(lb, !is_npn, g.up || g.down, g.up || g.left, g.down || g.right);
                assert(out[0] == atoms[1]);
                assert(out[1] == atoms[2]);
                assert(out[2] == atoms[0]);
                assert forall|k: int| 0 <= k < out.len() implies exists|j: int| 0 <= j < atoms.len() && #[trigger] atoms[j] == #[trigger] out[k] by {
                    if k == 0 {
                        assert(atoms[1] == out[0]);
                    } else if k == 1 {
                        assert(atoms[2] == out[1]);
                    } else {
                        assert(atoms[0] == out[2]);
                    }
                }
                assert forall|j: int| 0 <= j < atoms.len() implies exists|k: int| 0 <= k < out.len() && #[trigger] out[k] == #[trigger] atoms[j] by {
                    if j == 0 {
                        assert(out[2] == atoms[0]);
                    } else if j == 1 {
                        assert(out[0] == atoms[1]);
                    } else {
                        assert(out[1] == atoms[2]);
                    }
                }
            },
            _ => {},
        }
    }
}

} // verus!
