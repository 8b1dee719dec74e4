//! Painting rules on normalized cells: which connections between neighbouring cells can stand.
use vstd::prelude::*;

use crate::coords::IVec2;
use crate::substrate::normalized_cell::{Metal, NormalizedCell, Silicon};
use crate::substrate::placement::{is_cardinal, unit_down, unit_left, unit_right, unit_up, Placement};

verus! {

/// The four cells next to a cell, one step up (+y), right (+x), down and left.
#[derive(Clone, Copy, Debug, PartialEq, Eq, Structural)]
pub struct CellNeighbors {
    pub up: NormalizedCell,
    pub right: NormalizedCell,
    pub down: NormalizedCell,
    pub left: NormalizedCell,
}

/// The direction opposite to `dir`.
pub open spec fn spec_opposite(dir: IVec2) -> IVec2 {
    IVec2 { x: -dir.x as i32, y: -dir.y as i32 }
}

/// The neighbour `n`, one step away in direction `dir`, has metal that reaches back.
pub open spec fn spec_metal_accepts(n: NormalizedCell, dir: IVec2) -> bool {
    match n.metal {
        Metal::Trace { placement, .. } => placement.spec_has_cardinal(spec_opposite(dir)),
        Metal::Absent => false,
    }
}

/// Silicon of type `is_n` may keep a connection to the neighbour `n`, one step away in direction
/// `dir`: the neighbour reaches back with NP silicon of the same type, with the emitter/collector
/// of a MOSFET of the same type, or with a gate of a MOSFET of the other type.
pub open spec fn spec_si_accepts(is_n: bool, n: NormalizedCell, dir: IVec2) -> bool {
    match n.si {
        Silicon::NP { is_n: n_is_n, placement } => n_is_n == is_n && placement.spec_has_cardinal(spec_opposite(dir)),
        Silicon::Mosfet { is_npn, gate_placement, ec_placement } => if is_npn == is_n {
            ec_placement.spec_has_cardinal(spec_opposite(dir))
        } else {
            gate_placement.spec_has_cardinal(spec_opposite(dir))
        },
        Silicon::Absent => false,
    }
}

/// A metal placement with each direction kept only where the neighbour's metal reaches back.
pub open spec fn spec_fix_metal(pl: Placement, nb: CellNeighbors) -> Placement {
    Placement {
        center: pl.center,
        up: pl.up && spec_metal_accepts(nb.up, unit_up()),
        right: pl.right && spec_metal_accepts(nb.right, unit_right()),
        down: pl.down && spec_metal_accepts(nb.down, unit_down()),
        left: pl.left && spec_metal_accepts(nb.left, unit_left()),
    }
}

/// A silicon placement of type `is_n` rebuilt from the directions whose neighbours accept the
/// connection (see `spec_si_accepts`); the center is set exactly when some direction is kept.
pub open spec fn spec_fix_si(pl: Placement, is_n: bool, nb: CellNeighbors) -> Placement {
    let up = pl.up && spec_si_accepts(is_n, nb.up, unit_up());
    let right = pl.right && spec_si_accepts(is_n, nb.right, unit_right());
    let down = pl.down && spec_si_accepts(is_n, nb.down, unit_down());
    let left = pl.left && spec_si_accepts(is_n, nb.left, unit_left());
    Placement { center: up || right || down || left, up, right, down, left }
}

/// The cell with every connection that its neighbours cannot take dropped: metal keeps the
/// directions whose neighbour's metal reaches back; NP silicon, and a MOSFET's emitter/collector
/// (of the MOSFET's type) and gate (of the other type), keep the directions that
/// `spec_si_accepts`.
pub open spec fn spec_fixed(cell: NormalizedCell, nb: CellNeighbors) -> NormalizedCell {
    NormalizedCell {
        cell_loc: cell.cell_loc,
        metal: match cell.metal {
            Metal::Trace { has_via, placement } => Metal::Trace { has_via, placement: spec_fix_metal(placement, nb) },
            Metal::Absent => Metal::Absent,
        },
        si: match cell.si {
            Silicon::NP { is_n, placement } => Silicon::NP { is_n, placement: spec_fix_si(placement, is_n, nb) },
            Silicon::Mosfet { is_npn, gate_placement, ec_placement } => Silicon::Mosfet {
                is_npn,
                gate_placement: spec_fix_si(gate_placement, !is_npn, nb),
                ec_placement: spec_fix_si(ec_placement, is_npn, nb),
            },
            Silicon::Absent => Silicon::Absent,
        },
    }
}

fn opposite(dir: IVec2) -> (r: IVec2)
    requires
        is_cardinal(dir),
    ensures
        r == spec_opposite(dir),
        is_cardinal(r),
{
    IVec2 { x: -dir.x, y: -dir.y }
}

fn metal_accepts(n: &NormalizedCell, dir: IVec2) -> (r: bool)
    requires
        is_cardinal(dir),
    ensures
        r == spec_metal_accepts(*n, dir),
{
    match n.metal {
        Metal::Trace { placement, .. } => placement.has_cardinal(opposite(dir)),
        Metal::Absent => false,
    }
}

fn si_accepts(is_n: bool, n: &NormalizedCell, dir: IVec2) -> (r: bool)
    requires
        is_cardinal(dir),
    ensures
        r == spec_si_accepts(is_n, *n, dir),
{
    // N : NP(n), P : NP(p), N : MOSFET(npn) ec, N : MOSFET(pnp) gate, P : MOSFET(pnp) ec,
    // P : MOSFET(npn) gate.
    match n.si {
        Silicon::NP { is_n: n_is_n, placement } => n_is_n == is_n && placement.has_cardinal(opposite(dir)),
        Silicon::Mosfet { is_npn, gate_placement, ec_placement } => if is_npn == is_n {
            ec_placement.has_cardinal(opposite(dir))
        } else {
            gate_placement.has_cardinal(opposite(dir))
        },
        Silicon::Absent => false,
    }
}

fn fix_si(pl: Placement, is_n: bool, nb: &CellNeighbors) -> (r: Placement)
    ensures
        r == spec_fix_si(pl, is_n, *nb),
{
    let mut fixed = Placement { center: false, up: false, right: false, down: false, left: false };
    if pl.up && si_accepts(is_n, &nb.up, IVec2 { x: 0, y: 1 }) {
        fixed.set_cardinal(IVec2 { x: 0, y: 1 });
    }
    if pl.right && si_accepts(is_n, &nb.right, IVec2 { x: 1, y: 0 }) {
        fixed.set_cardinal(IVec2 { x: 1, y: 0 });
    }
    if pl.down && si_accepts(is_n, &nb.down, IVec2 { x: 0, y: -1 }) {
        fixed.set_cardinal(IVec2 { x: 0, y: -1 });
    }
    if pl.left && si_accepts(is_n, &nb.left, IVec2 { x: -1, y: 0 }) {
        fixed.set_cardinal(IVec2 { x: -1, y: 0 });
    }
    fixed
}

/// Follows every connection of `cell` to its neighbours `nb` and keeps only those the neighbours
/// can take (see `spec_fixed`): metal joins metal; silicon joins NP silicon of its type, the
/// emitter/collector of a MOSFET of its type, or a gate of a MOSFET of the other type.
pub fn fix_cell(cell: NormalizedCell, nb: &CellNeighbors) -> (r: NormalizedCell)
    ensures
        r == spec_fixed(cell, *nb),
{
    let mut cell = cell;
    if let Metal::Trace { has_via, placement } = cell.metal {
        let mut pl = placement;
        if pl.up && !metal_accepts(&nb.up, IVec2 { x: 0, y: 1 }) {
            pl.up = false;
        }
        if pl.right && !metal_accepts(&nb.right, IVec2 { x: 1, y: 0 }) {
            pl.right = false;
        }
        if pl.down && !metal_accepts(&nb.down, IVec2 { x: 0, y: -1 }) {
            pl.down = false;
        }
        if pl.left && !metal_accepts(&nb.left, IVec2 { x: -1, y: 0 }) {
            pl.left = false;
        }
        cell.metal = Metal::Trace { has_via, placement: pl };
    }
    match cell.si {
        Silicon::NP { is_n, placement } => {
            cell.si = Silicon::NP { is_n, placement: fix_si(placement, is_n, nb) };
        },
        Silicon::Mosfet { is_npn, gate_placement, ec_placement } => {
            let ec = fix_si(ec_placement, is_npn, nb);
            let gate = fix_si(gate_placement, !is_npn, nb);
            cell.si = Silicon::Mosfet { is_npn, gate_placement: gate, ec_placement: ec };
        },
        Silicon::Absent => {},
    }
    cell
}


/// A MOSFET gate placement runs along the x axis.
pub open spec fn spec_gate_horizontal(gate: Placement) -> bool {
    gate.left || gate.right
}

/// A placement with `dir` added (see `Placement::spec_with_cardinal`).
pub open spec fn spec_with(p: Placement, dir: IVec2) -> Placement {
    p.spec_with_cardinal(dir)
}

/// The from-cell's silicon after connecting it towards `dir` with silicon of type `paint_n`:
/// NP silicon of that type gains the direction; a MOSFET of that type gains it on its
/// emitter/collector when `dir` crosses its gate's axis, a MOSFET of the other type on its gate
/// when `dir` runs along it; anything else is unchanged.
pub open spec fn spec_connect_from(paint_n: bool, si: Silicon, dir: IVec2) -> Silicon {
    match si {
        Silicon::NP { is_n, placement } => if is_n == paint_n {
            Silicon::NP { is_n, placement: spec_with(placement, dir) }
        } else {
            si
        },
        Silicon::Mosfet { is_npn, gate_placement, ec_placement } => {
            let along = spec_gate_horizontal(gate_placement) == (dir.x != 0);
            if is_npn == paint_n {
                if !along {
                    Silicon::Mosfet { is_npn, gate_placement, ec_placement: spec_with(ec_placement, dir) }
                } else {
                    si
                }
            } else {
                if along {
                    Silicon::Mosfet { is_npn, gate_placement: spec_with(gate_placement, dir), ec_placement }
                } else {
                    si
                }
            }
        },
        Silicon::Absent => si,
    }
}

/// The to-cell's silicon after connecting it back towards the from-cell (direction `dir` leads
/// from the from-cell to it) with silicon of type `paint_n`, or nothing when it cannot connect:
/// NP silicon of that type gains the opposite direction; NP silicon of the other type that does
/// not reach on in `dir` becomes a MOSFET of the other type whose gate comes from the from-cell;
/// a MOSFET connects on its emitter/collector or gate as in `spec_connect_from`.
pub open spec fn spec_connect_to(paint_n: bool, si: Silicon, dir: IVec2) -> Option<Silicon> {
    let back = spec_opposite(dir);
    match si {
        Silicon::NP { is_n, placement } => if is_n == paint_n {
            Some(Silicon::NP { is_n, placement: spec_with(placement, back) })
        } else if !placement.spec_has_cardinal(dir) {
            Some(Silicon::Mosfet {
                is_npn: !paint_n,
                gate_placement: spec_with(Placement::spec_none(), back),
                ec_placement: placement,
            })
        } else {
            None
        },
        Silicon::Mosfet { is_npn, gate_placement, ec_placement } => {
            let along = spec_gate_horizontal(gate_placement) == (dir.x != 0);
            if is_npn == paint_n {
                if !along {
                    Some(Silicon::Mosfet { is_npn, gate_placement, ec_placement: spec_with(ec_placement, back) })
                } else {
                    None
                }
            } else {
                if along {
                    Some(Silicon::Mosfet { is_npn, gate_placement: spec_with(gate_placement, back), ec_placement })
                } else {
                    None
                }
            }
        },
        Silicon::Absent => None,
    }
}

/// The to-cell with silicon of type `paint_n` painted where it had none.
pub open spec fn spec_painted_si(to: NormalizedCell, paint_n: bool) -> NormalizedCell {
    if to.si is Absent {
        NormalizedCell { si: Silicon::NP { is_n: paint_n, placement: Placement::spec_center() }, ..to }
    } else {
        to
    }
}

/// The from-cell already reaches towards `dir` on its silicon.
pub open spec fn spec_si_reaches(si: Silicon, dir: IVec2) -> bool {
    match si {
        Silicon::NP { placement, .. } => placement.spec_has_cardinal(dir),
        Silicon::Mosfet { gate_placement, ec_placement, .. } => gate_placement.spec_has_cardinal(dir)
            || ec_placement.spec_has_cardinal(dir),
        Silicon::Absent => false,
    }
}

/// The cells that painting silicon of type `paint_n` into `to`, coming from `from` in direction
/// `dir`, writes: the to-cell always (painted where it had no silicon), and, when both cells can
/// connect, the connected from-cell too (`Some`) with the to-cell connected back.
pub open spec fn spec_si_link(from: Option<NormalizedCell>, to: NormalizedCell, dir: IVec2, paint_n: bool) -> (Option<NormalizedCell>, NormalizedCell) {
    let to0 = spec_painted_si(to, paint_n);
    match from {
        None => (None, to0),
        Some(f) => if spec_si_reaches(f.si, dir) {
            (None, to0)
        } else {
            let fsi = spec_connect_from(paint_n, f.si, dir);
            if fsi == f.si {
                (None, to0)
            } else {
                match spec_connect_to(paint_n, to0.si, dir) {
                    Some(tsi) => (Some(NormalizedCell { si: fsi, ..f }), NormalizedCell { si: tsi, ..to0 }),
                    None => (None, to0),
                }
            }
        },
    }
}

fn gate_horizontal(gate: &Placement) -> (r: bool)
    ensures
        r == spec_gate_horizontal(*gate),
{
    gate.left || gate.right
}

fn with(p: Placement, dir: IVec2) -> (r: Placement)
    requires
        is_cardinal(dir),
    ensures
        r == spec_with(p, dir),
{
    let mut p = p;
    p.set_cardinal(dir);
    p
}

fn connect_from(paint_n: bool, si: Silicon, dir: IVec2) -> (r: Silicon)
    requires
        is_cardinal(dir),
    ensures
        r == spec_connect_from(paint_n, si, dir),
{
    match si {
        Silicon::NP { is_n, placement } => if is_n == paint_n {
            Silicon::NP { is_n, placement: with(placement, dir) }
        } else {
            si
        },
        Silicon::Mosfet { is_npn, gate_placement, ec_placement } => {
            let along = gate_horizontal(&gate_placement) == (dir.x != 0);
            if is_npn == paint_n {
                if !along {
                    Silicon::Mosfet { is_npn, gate_placement, ec_placement: with(ec_placement, dir) }
                } else {
                    si
                }
            } else {
                if along {
                    Silicon::Mosfet { is_npn, gate_placement: with(gate_placement, dir), ec_placement }
                } else {
                    si
                }
            }
        },
        Silicon::Absent => si,
    }
}

fn connect_to(paint_n: bool, si: Silicon, dir: IVec2) -> (r: Option<Silicon>)
    requires
        is_cardinal(dir),
    ensures
        r == spec_connect_to(paint_n, si, dir),
{
    let back = opposite(dir);
    match si {
        Silicon::NP { is_n, placement } => if is_n == paint_n {
            Some(Silicon::NP { is_n, placement: with(placement, back) })
        } else if !placement.has_cardinal(dir) {
            Some(Silicon::Mosfet { is_npn: !paint_n, gate_placement: Placement::from_cardinal(back), ec_placement: placement })
        } else {
            None
        },
        Silicon::Mosfet { is_npn, gate_placement, ec_placement } => {
            let along = gate_horizontal(&gate_placement) == (dir.x != 0);
            if is_npn == paint_n {
                if !along {
                    Some(Silicon::Mosfet { is_npn, gate_placement, ec_placement: with(ec_placement, back) })
                } else {
                    None
                }
            } else {
                if along {
                    Some(Silicon::Mosfet { is_npn, gate_placement: with(gate_placement, back), ec_placement })
                } else {
                    None
                }
            }
        },
        Silicon::Absent => None,
    }
}

/// Paints silicon of type `paint_n` into the cell `to`, linking it to the cell `from` (one step
/// back, `dir` leading from `from` to `to`) when there is one. Gives the cells to write: the
/// from-cell when the link is made, and the to-cell. Connections follow this table (paint type :
/// cell): N : NP(n) and P : NP(p) connect; N : NP(p) and P : NP(n) that do not reach on become a
/// MOSFET whose gate is linked; N : MOSFET(npn) and P : MOSFET(pnp) connect their emitter/collector
/// across its gate axis; N : MOSFET(pnp) and P : MOSFET(npn) connect their gate along its axis.
pub fn si_link(from: Option<NormalizedCell>, to: NormalizedCell, dir: IVec2, paint_n: bool) -> (r: (Option<NormalizedCell>, NormalizedCell))
    requires
        from is Some ==> is_cardinal(dir),
    ensures
        r == spec_si_link(from, to, dir, paint_n),
{
    let mut to_cell = to;
    // Silicon can be painted above any cell that has none.
    if let Silicon::Absent = to_cell.si {
        to_cell.si = Silicon::NP { is_n: paint_n, placement: Placement::center_only() };
    }
    match from {
        None => (None, to_cell),
        Some(from_cell) => {
            // Nothing to do when the from-cell is already connected.
            let reaches = match from_cell.si {
                Silicon::NP { placement, .. } => placement.has_cardinal(dir),
                Silicon::Mosfet { gate_placement, ec_placement, .. } => gate_placement.has_cardinal(dir)
                    || ec_placement.has_cardinal(dir),
                Silicon::Absent => false,
            };
            if reaches {
                return (None, to_cell);
            }
            let from_si = connect_from(paint_n, from_cell.si, dir);
            // The from-cell cannot connect, so nothing more is painted.
            if from_si == from_cell.si {
                return (None, to_cell);
            }
            match connect_to(paint_n, to_cell.si, dir) {
                Some(to_si) => (
                    Some(NormalizedCell { si: from_si, ..from_cell }),
                    NormalizedCell { si: to_si, ..to_cell },
                ),
                None => (None, to_cell),
            }
        },
    }
}

/// The cells that painting metal into `to`, coming from `from` in direction `dir`, writes: the
/// from-cell (when there is one) with `dir` added to its metal, and the to-cell with metal painted
/// where it had none and the opposite direction added, when both cells carry metal.
pub open spec fn spec_metal_link(from: Option<NormalizedCell>, to: NormalizedCell, dir: IVec2) -> (Option<NormalizedCell>, NormalizedCell) {
    let to0 = if to.metal is Absent {
        NormalizedCell { metal: Metal::Trace { has_via: false, placement: Placement::spec_center() }, ..to }
    } else {
        to
    };
    match from {
        None => (None, to0),
        Some(f) => match (f.metal, to0.metal) {
            (Metal::Trace { has_via: fv, placement: fp }, Metal::Trace { has_via: tv, placement: tp }) => (
                Some(NormalizedCell { metal: Metal::Trace { has_via: fv, placement: spec_with(fp, dir) }, ..f }),
                NormalizedCell { metal: Metal::Trace { has_via: tv, placement: spec_with(tp, spec_opposite(dir)) }, ..to0 },
            ),
            _ => (Some(f), to0),
        },
    }
}

/// Paints metal into the cell `to`, linking it to the cell `from` (one step back, `dir` leading
/// from `from` to `to`) when there is one (see `spec_metal_link`). Gives the cells to write.
pub fn metal_link(from: Option<NormalizedCell>, to: NormalizedCell, dir: IVec2) -> (r: (Option<NormalizedCell>, NormalizedCell))
    requires
        from is Some ==> is_cardinal(dir),
    ensures
        r == spec_metal_link(from, to, dir),
{
    let mut to_cell = to;
    if let Metal::Absent = to_cell.metal {
        to_cell.metal = Metal::Trace { has_via: false, placement: Placement::center_only() };
    }
    match from {
        None => (None, to_cell),
        Some(from_cell) => match (from_cell.metal, to_cell.metal) {
            (Metal::Trace { has_via: fv, placement: fp }, Metal::Trace { has_via: tv, placement: tp }) => (
                Some(NormalizedCell { metal: Metal::Trace { has_via: fv, placement: with(fp, dir) }, ..from_cell }),
                NormalizedCell { metal: Metal::Trace { has_via: tv, placement: with(tp, opposite(dir)) }, ..to_cell },
            ),
            _ => (Some(from_cell), to_cell),
        },
    }
}


/// The cell with a via placed, when it carries both metal and NP silicon; otherwise unchanged.
pub open spec fn spec_via_cell(cell: NormalizedCell) -> NormalizedCell {
    match (cell.si, cell.metal) {
        (Silicon::NP { .. }, Metal::Trace { placement, .. }) => NormalizedCell { metal: Metal::Trace { has_via: true, placement }, ..cell },
        _ => cell,
    }
}

/// Places a via in the cell where it carries both metal and NP silicon (see `spec_via_cell`).
pub fn via_cell(cell: NormalizedCell) -> (r: NormalizedCell)
    ensures
        r == spec_via_cell(cell),
{
    match (cell.si, cell.metal) {
        (Silicon::NP { .. }, Metal::Trace { placement, .. }) => NormalizedCell { metal: Metal::Trace { has_via: true, placement }, ..cell },
        _ => cell,
    }
}

/// The placement without the direction `dir` (the center is kept).
pub open spec fn spec_without(p: Placement, dir: IVec2) -> Placement {
    if dir.x == 0 && dir.y == 1 {
        Placement { up: false, ..p }
    } else if dir.x == 1 && dir.y == 0 {
        Placement { right: false, ..p }
    } else if dir.x == 0 && dir.y == -1 {
        Placement { down: false, ..p }
    } else {
        Placement { left: false, ..p }
    }
}

/// The directions the silicon of a cell reaches: those of an NP trace, or of a MOSFET's gate and
/// emitter/collector together.
pub open spec fn spec_si_dirs(si: Silicon) -> Placement {
    match si {
        Silicon::NP { placement, .. } => placement,
        Silicon::Mosfet { gate_placement, ec_placement, .. } => gate_placement.spec_bitor(ec_placement),
        Silicon::Absent => Placement::spec_none(),
    }
}

/// The neighbour `n` (one step away in `dir`) with its silicon no longer reaching back.
pub open spec fn spec_unlink_si(n: NormalizedCell, dir: IVec2) -> NormalizedCell {
    let back = spec_opposite(dir);
    NormalizedCell {
        si: match n.si {
            Silicon::NP { is_n, placement } => Silicon::NP { is_n, placement: spec_without(placement, back) },
            Silicon::Mosfet { is_npn, gate_placement, ec_placement } => Silicon::Mosfet {
                is_npn,
                gate_placement: spec_without(gate_placement, back),
                ec_placement: spec_without(ec_placement, back),
            },
            Silicon::Absent => Silicon::Absent,
        },
        ..n
    }
}

/// The neighbour `n` (one step away in `dir`) with its metal no longer reaching back.
pub open spec fn spec_unlink_metal(n: NormalizedCell, dir: IVec2) -> NormalizedCell {
    NormalizedCell {
        metal: match n.metal {
            Metal::Trace { has_via, placement } => Metal::Trace { has_via, placement: spec_without(placement, spec_opposite(dir)) },
            Metal::Absent => Metal::Absent,
        },
        ..n
    }
}

/// The neighbours, each one in a direction of `dirs` passed through `f`.
pub open spec fn spec_unlink_all(nb: CellNeighbors, dirs: Placement, f: spec_fn(NormalizedCell, IVec2) -> NormalizedCell) -> CellNeighbors {
    CellNeighbors {
        up: if dirs.up { f(nb.up, unit_up()) } else { nb.up },
        right: if dirs.right { f(nb.right, unit_right()) } else { nb.right },
        down: if dirs.down { f(nb.down, unit_down()) } else { nb.down },
        left: if dirs.left { f(nb.left, unit_left()) } else { nb.left },
    }
}

/// Clearing the silicon of a cell: the cell loses its silicon and its via, and each neighbour it
/// reached loses the silicon connection back to it.
pub open spec fn spec_cleared_si(cell: NormalizedCell, nb: CellNeighbors) -> (NormalizedCell, CellNeighbors) {
    (
        NormalizedCell {
            si: Silicon::Absent,
            metal: match cell.metal {
                Metal::Trace { placement, .. } => Metal::Trace { has_via: false, placement },
                Metal::Absent => Metal::Absent,
            },
            ..cell
        },
        spec_unlink_all(nb, spec_si_dirs(cell.si), |n: NormalizedCell, d: IVec2| spec_unlink_si(n, d)),
    )
}

/// Clearing the metal of a cell: the cell loses its metal, and each neighbour it reached loses
/// the metal connection back to it.
pub open spec fn spec_cleared_metal(cell: NormalizedCell, nb: CellNeighbors) -> (NormalizedCell, CellNeighbors) {
    (
        NormalizedCell { metal: Metal::Absent, ..cell },
        spec_unlink_all(
            nb,
            match cell.metal {
                Metal::Trace { placement, .. } => placement,
                Metal::Absent => Placement::spec_none(),
            },
            |n: NormalizedCell, d: IVec2| spec_unlink_metal(n, d),
        ),
    )
}

fn without(p: Placement, dir: IVec2) -> (r: Placement)
    requires
        is_cardinal(dir),
    ensures
        r == spec_without(p, dir),
{
    let mut p = p;
    if dir.x == 0 && dir.y == 1 {
        p.up = false;
    } else if dir.x == 1 && dir.y == 0 {
        p.right = false;
    } else if dir.x == 0 && dir.y == -1 {
        p.down = false;
    } else {
        p.left = false;
    }
    p
}

fn unlink_si(n: NormalizedCell, dir: IVec2) -> (r: NormalizedCell)
    requires
        is_cardinal(dir),
    ensures
        r == spec_unlink_si(n, dir),
{
    let back = opposite(dir);
    let mut n = n;
    match n.si {
        Silicon::NP { is_n, placement } => {
            n.si = Silicon::NP { is_n, placement: without(placement, back) };
        },
        Silicon::Mosfet { is_npn, gate_placement, ec_placement } => {
            n.si = Silicon::Mosfet { is_npn, gate_placement: without(gate_placement, back), ec_placement: without(ec_placement, back) };
        },
        Silicon::Absent => {},
    }
    n
}

fn unlink_metal(n: NormalizedCell, dir: IVec2) -> (r: NormalizedCell)
    requires
        is_cardinal(dir),
    ensures
        r == spec_unlink_metal(n, dir),
{
    let mut n = n;
    if let Metal::Trace { has_via, placement } = n.metal {
        n.metal = Metal::Trace { has_via, placement: without(placement, opposite(dir)) };
    }
    n
}

/// Clears the silicon of `cell` (and its via) and unlinks the neighbours it reached (see
/// `spec_cleared_si`). Gives the cell and its neighbours to write.
pub fn clear_cell_si(cell: NormalizedCell, nb: &CellNeighbors) -> (r: (NormalizedCell, CellNeighbors))
    ensures
        r == spec_cleared_si(cell, *nb),
{
    let dirs = match cell.si {
        Silicon::NP { placement, .. } => placement,
        Silicon::Mosfet { gate_placement, ec_placement, .. } => gate_placement.bitor(ec_placement),
        Silicon::Absent => Placement::none(),
    };
    let mut cleared = cell;
    cleared.si = Silicon::Absent;
    if let Metal::Trace { placement, .. } = cleared.metal {
        cleared.metal = Metal::Trace { has_via: false, placement };
    }
    let mut out = *nb;
    if dirs.up {
        out.up = unlink_si(nb.up, IVec2 { x: 0, y: 1 });
    }
    if dirs.right {
        out.right = unlink_si(nb.right, IVec2 { x: 1, y: 0 });
    }
    if dirs.down {
        out.down = unlink_si(nb.down, IVec2 { x: 0, y: -1 });
    }
    if dirs.left {
        out.left = unlink_si(nb.left, IVec2 { x: -1, y: 0 });
    }
    (cleared, out)
}

/// Clears the metal of `cell` and unlinks the neighbours it reached (see `spec_cleared_metal`).
/// Gives the cell and its neighbours to write.
pub fn clear_cell_metal(cell: NormalizedCell, nb: &CellNeighbors) -> (r: (NormalizedCell, CellNeighbors))
    ensures
        r == spec_cleared_metal(cell, *nb),
{
    let dirs = match cell.metal {
        Metal::Trace { placement, .. } => placement,
        Metal::Absent => Placement::none(),
    };
    let mut cleared = cell;
    cleared.metal = Metal::Absent;
    let mut out = *nb;
    if dirs.up {
        out.up = unlink_metal(nb.up, IVec2 { x: 0, y: 1 });
    }
    if dirs.right {
        out.right = unlink_metal(nb.right, IVec2 { x: 1, y: 0 });
    }
    if dirs.down {
        out.down = unlink_metal(nb.down, IVec2 { x: 0, y: -1 });
    }
    if dirs.left {
        out.left = unlink_metal(nb.left, IVec2 { x: -1, y: 0 });
    }
    (cleared, out)
}


/// A silicon link that is made joins both cells: the from-cell then reaches towards the to-cell
/// and the to-cell reaches back.
pub proof fn lemma_si_link_joins(from: NormalizedCell, to: NormalizedCell, dir: IVec2, paint_n: bool)
    requires
        is_cardinal(dir),
    ensures
        spec_si_link(Some(from), to, dir, paint_n).0 matches Some(f) ==> {
            &&& spec_si_reaches(f.si, dir)
            &&& spec_si_reaches(spec_si_link(Some(from), to, dir, paint_n).1.si, spec_opposite(dir))
        },
{
}

/// A metal link between two cells that carry metal joins them both ways.
pub proof fn lemma_metal_link_joins(from: NormalizedCell, to: NormalizedCell, dir: IVec2)
    requires
        is_cardinal(dir),
        from.metal is Trace,
    ensures
        spec_metal_link(Some(from), to, dir).0 matches Some(f) && f.metal matches Metal::Trace { placement, .. }
            && placement.spec_has_cardinal(dir),
        spec_metal_link(Some(from), to, dir).1.metal matches Metal::Trace { placement, .. }
            && placement.spec_has_cardinal(spec_opposite(dir)),
{
}


/// The from-cell's and to-cell's silicon after the brush paints silicon of type `paint_n` from
/// one to the other (`dir` leads from the from-cell to the to-cell), or nothing when they do not
/// join. `plus` and `minus` are the cells on either side of the to-cell across `dir`, and
/// `to_before` the to-cell as it was before painting. The rules, in order:
/// - NP silicon of the painted type on both sides joins;
/// - a MOSFET's gate joins an empty to-cell by painting it with silicon of its gate's type (the
///   brush paints an empty to-cell before it joins, so through `spec_brush_si` this rule never
///   applies; see `lemma_brush_si_extends_gate` for what does);
/// - a MOSFET's gate joins NP silicon of the other type than the MOSFET;
/// - from silicon of the painted type onto NP silicon that does not reach on in `dir`, with the
///   cells across `dir` of the other type, a MOSFET of the other type is drawn whose gate is
///   linked.
pub open spec fn spec_brush_join(
    fsi: Silicon,
    tsi: Silicon,
    to_before: NormalizedCell,
    plus: NormalizedCell,
    minus: NormalizedCell,
    dir: IVec2,
    paint_n: bool,
) -> Option<(Silicon, Silicon)> {
    let back = spec_opposite(dir);
    let from_matches = fsi.spec_matches_n(paint_n);
    let tangents_opposite = plus.si.spec_matches_n(!paint_n) && to_before.si.spec_matches_n(!paint_n)
        && minus.si.spec_matches_n(!paint_n);
    let to_open = match tsi {
        Silicon::NP { placement, .. } => !placement.spec_has_cardinal(dir),
        _ => false,
    };
    let mosfet_ok = from_matches && tangents_opposite && to_open;
    match (fsi, tsi) {
        (Silicon::NP { is_n: fc_is_n, placement: fc_pl }, Silicon::NP { is_n: tc_is_n, placement: tc_pl }) =>
            if fc_is_n == tc_is_n && tc_is_n == paint_n {
                Some((Silicon::NP { is_n: fc_is_n, placement: spec_with(fc_pl, dir) }, Silicon::NP { is_n: tc_is_n, placement: spec_with(tc_pl, back) }))
            } else if mosfet_ok {
                Some((
                    Silicon::NP { is_n: fc_is_n, placement: spec_with(fc_pl, dir) },
                    Silicon::Mosfet { is_npn: !paint_n, gate_placement: spec_with(Placement::spec_none(), back), ec_placement: tc_pl },
                ))
            } else {
                None
            },
        (Silicon::Mosfet { is_npn, gate_placement, ec_placement }, Silicon::Absent) => Some((
            Silicon::Mosfet { is_npn, gate_placement: spec_with(gate_placement, dir), ec_placement },
            Silicon::NP { is_n: !is_npn, placement: spec_with(Placement::spec_none(), back) },
        )),
        (Silicon::Mosfet { is_npn, gate_placement, ec_placement }, Silicon::NP { is_n, placement }) =>
            if is_npn != is_n {
                Some((
                    Silicon::Mosfet { is_npn, gate_placement: spec_with(gate_placement, dir), ec_placement },
                    Silicon::NP { is_n, placement: spec_with(placement, back) },
                ))
            } else if mosfet_ok {
                Some((
                    Silicon::Mosfet { is_npn, gate_placement: spec_with(gate_placement, dir), ec_placement },
                    Silicon::Mosfet { is_npn: !paint_n, gate_placement: spec_with(Placement::spec_none(), back), ec_placement: placement },
                ))
            } else {
                None
            },
        _ => None,
    }
}

/// The cells the brush writes when painting silicon of type `paint_n` into `to`, coming from
/// `from` in direction `dir`: the to-cell (painted where it had no silicon) and, when there is a
/// from-cell, the from-cell, both joined where `spec_brush_join` allows it.
pub open spec fn spec_brush_si(
    from: Option<NormalizedCell>,
    to: NormalizedCell,
    plus: NormalizedCell,
    minus: NormalizedCell,
    dir: IVec2,
    paint_n: bool,
) -> (Option<NormalizedCell>, NormalizedCell) {
    let to0 = spec_painted_si(to, paint_n);
    match from {
        None => (None, to0),
        Some(f) => match spec_brush_join(f.si, to0.si, to, plus, minus, dir, paint_n) {
            Some((fsi, tsi)) => (Some(NormalizedCell { si: fsi, ..f }), NormalizedCell { si: tsi, ..to0 }),
            None => (Some(f), to0),
        },
    }
}

/// Paints silicon of type `paint_n` into `to` with the brush, coming from `from` in direction
/// `dir` (see `spec_brush_si`); `plus` and `minus` are the cells on either side of `to` across
/// `dir`. Gives the cells to write.
pub fn brush_si(
    from: Option<NormalizedCell>,
    to: NormalizedCell,
    plus: NormalizedCell,
    minus: NormalizedCell,
    dir: IVec2,
    paint_n: bool,
) -> (r: (Option<NormalizedCell>, NormalizedCell))
    requires
        from is Some ==> is_cardinal(dir),
    ensures
        r == spec_brush_si(from, to, plus, minus, dir, paint_n),
{
    let mut to_cell = to;
    // Silicon can be painted above any cell that has none.
    if let Silicon::Absent = to_cell.si {
        to_cell.si = Silicon::NP { is_n: paint_n, placement: Placement::center_only() };
    }
    let from_cell = match from {
        None => {
            return (None, to_cell);
        },
        Some(f) => f,
    };
    let back = opposite(dir);
    // A MOSFET needs a from-cell of the painted type, the cells across `dir` of the other type,
    // and silicon under the future gate that does not reach on in `dir`.
    let from_matches = from_cell.si.matches_n(paint_n);
    let tangents_opposite = plus.si.matches_n(!paint_n) && to.si.matches_n(!paint_n) && minus.si.matches_n(!paint_n);
    let to_open = match to_cell.si {
        Silicon::NP { placement, .. } => !placement.has_cardinal(dir),
        _ => false,
    };
    let mosfet_ok = from_matches && tangents_opposite && to_open;
    let joined: Option<(Silicon, Silicon)> = match (from_cell.si, to_cell.si) {
        (Silicon::NP { is_n: fc_is_n, placement: fc_pl }, Silicon::NP { is_n: tc_is_n, placement: tc_pl }) =>
            if fc_is_n == tc_is_n && tc_is_n == paint_n {
                Some((Silicon::NP { is_n: fc_is_n, placement: with(fc_pl, dir) }, Silicon::NP { is_n: tc_is_n, placement: with(tc_pl, back) }))
            } else if mosfet_ok {
                Some((
                    Silicon::NP { is_n: fc_is_n, placement: with(fc_pl, dir) },
                    Silicon::Mosfet { is_npn: !paint_n, gate_placement: Placement::from_cardinal(back), ec_placement: tc_pl },
                ))
            } else {
                None
            },
        (Silicon::Mosfet { is_npn, gate_placement, ec_placement }, Silicon::Absent) => Some((
            Silicon::Mosfet { is_npn, gate_placement: with(gate_placement, dir), ec_placement },
            Silicon::NP { is_n: !is_npn, placement: Placement::from_cardinal(back) },
        )),
        (Silicon::Mosfet { is_npn, gate_placement, ec_placement }, Silicon::NP { is_n, placement }) =>
            if is_npn != is_n {
                Some((
                    Silicon::Mosfet { is_npn, gate_placement: with(gate_placement, dir), ec_placement },
                    Silicon::NP { is_n, placement: with(placement, back) },
                ))
            } else if mosfet_ok {
                Some((
                    Silicon::Mosfet { is_npn, gate_placement: with(gate_placement, dir), ec_placement },
                    Silicon::Mosfet { is_npn: !paint_n, gate_placement: Placement::from_cardinal(back), ec_placement: placement },
                ))
            } else {
                None
            },
        _ => None,
    };
    match joined {
        Some((fsi, tsi)) => (Some(NormalizedCell { si: fsi, ..from_cell }), NormalizedCell { si: tsi, ..to_cell }),
        None => (Some(from_cell), to_cell),
    }
}

/// The cardinal directions of `a` are all directions of `b`.
pub open spec fn spec_dirs_within(a: Placement, b: Placement) -> bool {
    (a.up ==> b.up) && (a.right ==> b.right) && (a.down ==> b.down) && (a.left ==> b.left)
}

/// Fixing a cell only drops connections: the cell keeps its place, its via, whether it carries
/// metal (and the metal's center), the kind and type of its silicon, and each direction it keeps
/// was there before.
pub proof fn lemma_fixed_only_drops(cell: NormalizedCell, nb: CellNeighbors)
    ensures
        spec_fixed(cell, nb).cell_loc == cell.cell_loc,
        match (cell.metal, spec_fixed(cell, nb).metal) {
            (Metal::Trace { has_via, placement }, Metal::Trace { has_via: v, placement: p }) => v == has_via
                && p.center == placement.center && spec_dirs_within(p, placement),
            (Metal::Absent, Metal::Absent) => true,
            _ => false,
        },
        match (cell.si, spec_fixed(cell, nb).si) {
            (Silicon::NP { is_n, placement }, Silicon::NP { is_n: n, placement: p }) => n == is_n
                && spec_dirs_within(p, placement),
            (
                Silicon::Mosfet { is_npn, gate_placement, ec_placement },
                Silicon::Mosfet { is_npn: n, gate_placement: g, ec_placement: e },
            ) => n == is_npn && spec_dirs_within(g, gate_placement) && spec_dirs_within(e, ec_placement),
            (Silicon::Absent, Silicon::Absent) => true,
            _ => false,
        },
{
}

/// Fixing a cell a second time against the same neighbours changes nothing.
pub proof fn lemma_fixed_idempotent(cell: NormalizedCell, nb: CellNeighbors)
    ensures
        spec_fixed(spec_fixed(cell, nb), nb) == spec_fixed(cell, nb),
{
}

/// Painting silicon changes silicon only: the cells written keep their place and their metal.
pub proof fn lemma_si_link_keeps_metal(from: Option<NormalizedCell>, to: NormalizedCell, dir: IVec2, paint_n: bool)
    ensures
        spec_si_link(from, to, dir, paint_n).1.cell_loc == to.cell_loc,
        spec_si_link(from, to, dir, paint_n).1.metal == to.metal,
        spec_si_link(from, to, dir, paint_n).0 matches Some(f) ==> from matches Some(f0)
            && f.cell_loc == f0.cell_loc && f.metal == f0.metal,
{
}

/// Without a from-cell, or with one that already reaches towards `dir`, silicon painting only
/// paints the to-cell.
pub proof fn lemma_si_link_paints_alone(from: Option<NormalizedCell>, to: NormalizedCell, dir: IVec2, paint_n: bool)
    requires
        from matches Some(f) ==> spec_si_reaches(f.si, dir),
    ensures
        spec_si_link(from, to, dir, paint_n) == (None::<NormalizedCell>, spec_painted_si(to, paint_n)),
{
}

/// NP silicon of the painted type that does not yet reach towards `dir` joins NP silicon of that
/// type, or a cell without silicon (which is painted first).
pub proof fn lemma_si_link_same_type_joins(from: NormalizedCell, to: NormalizedCell, dir: IVec2, paint_n: bool, fp: Placement)
    requires
        is_cardinal(dir),
        from.si == (Silicon::NP { is_n: paint_n, placement: fp }),
        !fp.spec_has_cardinal(dir),
        to.si is Absent || (to.si matches Silicon::NP { is_n, .. } && is_n == paint_n),
    ensures
        spec_si_link(Some(from), to, dir, paint_n).0 == Some(
            NormalizedCell { si: Silicon::NP { is_n: paint_n, placement: spec_with(fp, dir) }, ..from },
        ),
        spec_si_link(Some(from), to, dir, paint_n).1.si matches Silicon::NP { is_n, placement }
            && is_n == paint_n && placement.spec_has_cardinal(spec_opposite(dir)),
{
}

/// NP silicon of the painted type that does not yet reach towards `dir`, drawn onto NP silicon of
/// the other type that does not reach on in `dir`, turns the to-cell into a MOSFET of the other
/// type: its gate comes from the from-cell and its emitter/collector is the old silicon.
pub proof fn lemma_si_link_draws_mosfet(from: NormalizedCell, to: NormalizedCell, dir: IVec2, paint_n: bool, fp: Placement, tp: Placement)
    requires
        is_cardinal(dir),
        from.si == (Silicon::NP { is_n: paint_n, placement: fp }),
        !fp.spec_has_cardinal(dir),
        to.si == (Silicon::NP { is_n: !paint_n, placement: tp }),
        !tp.spec_has_cardinal(dir),
    ensures
        spec_si_link(Some(from), to, dir, paint_n).0 == Some(
            NormalizedCell { si: Silicon::NP { is_n: paint_n, placement: spec_with(fp, dir) }, ..from },
        ),
        spec_si_link(Some(from), to, dir, paint_n).1 == (NormalizedCell {
            si: Silicon::Mosfet {
                is_npn: !paint_n,
                gate_placement: spec_with(Placement::spec_none(), spec_opposite(dir)),
                ec_placement: tp,
            },
            ..to
        }),
{
}

/// Silicon of the other type that reaches on in `dir` cannot be crossed: the from-cell is left
/// as it is and only the to-cell is written, unchanged.
pub proof fn lemma_si_link_blocked(from: NormalizedCell, to: NormalizedCell, dir: IVec2, paint_n: bool, tp: Placement)
    requires
        is_cardinal(dir),
        to.si == (Silicon::NP { is_n: !paint_n, placement: tp }),
        tp.spec_has_cardinal(dir),
    ensures
        spec_si_link(Some(from), to, dir, paint_n) == (None::<NormalizedCell>, to),
{
}

/// Painting silicon with the brush changes silicon only: the cells written keep their place and
/// their metal.
pub proof fn lemma_brush_si_keeps_metal(
    from: Option<NormalizedCell>,
    to: NormalizedCell,
    plus: NormalizedCell,
    minus: NormalizedCell,
    dir: IVec2,
    paint_n: bool,
)
    ensures
        spec_brush_si(from, to, plus, minus, dir, paint_n).1.cell_loc == to.cell_loc,
        spec_brush_si(from, to, plus, minus, dir, paint_n).1.metal == to.metal,
        spec_brush_si(from, to, plus, minus, dir, paint_n).0 matches Some(f) ==> from matches Some(f0)
            && f.cell_loc == f0.cell_loc && f.metal == f0.metal,
{
}

/// The brush joins NP silicon of the painted type to NP silicon of that type, or to a cell
/// without silicon (which is painted first).
pub proof fn lemma_brush_si_same_type_joins(
    from: NormalizedCell,
    to: NormalizedCell,
    plus: NormalizedCell,
    minus: NormalizedCell,
    dir: IVec2,
    paint_n: bool,
    fp: Placement,
)
    requires
        is_cardinal(dir),
        from.si == (Silicon::NP { is_n: paint_n, placement: fp }),
        to.si is Absent || (to.si matches Silicon::NP { is_n, .. } && is_n == paint_n),
    ensures
        spec_brush_si(Some(from), to, plus, minus, dir, paint_n).0 == Some(
            NormalizedCell { si: Silicon::NP { is_n: paint_n, placement: spec_with(fp, dir) }, ..from },
        ),
        spec_brush_si(Some(from), to, plus, minus, dir, paint_n).1.si matches Silicon::NP { is_n, placement }
            && is_n == paint_n && placement.spec_has_cardinal(spec_opposite(dir)),
{
}

/// The brush extends a MOSFET's gate into NP silicon of the other type than the MOSFET, and into a
/// cell without silicon when the painted type is its gate's type.
pub proof fn lemma_brush_si_extends_gate(
    from: NormalizedCell,
    to: NormalizedCell,
    plus: NormalizedCell,
    minus: NormalizedCell,
    dir: IVec2,
    paint_n: bool,
    is_npn: bool,
    g: Placement,
    e: Placement,
)
    requires
        is_cardinal(dir),
        from.si == (Silicon::Mosfet { is_npn, gate_placement: g, ec_placement: e }),
        (to.si is Absent && paint_n != is_npn) || (to.si matches Silicon::NP { is_n, .. } && is_n != is_npn),
    ensures
        spec_brush_si(Some(from), to, plus, minus, dir, paint_n).0 == Some(
            NormalizedCell { si: Silicon::Mosfet { is_npn, gate_placement: spec_with(g, dir), ec_placement: e }, ..from },
        ),
        spec_brush_si(Some(from), to, plus, minus, dir, paint_n).1.si matches Silicon::NP { is_n, placement }
            && is_n != is_npn && placement.spec_has_cardinal(spec_opposite(dir)),
{
}

/// The brush draws a MOSFET: from NP silicon of the painted type onto NP silicon of the other type
/// that does not reach on in `dir`, with the cells on either side across `dir` of the other type
/// too, the to-cell becomes a MOSFET of the other type whose gate is linked to the from-cell.
pub proof fn lemma_brush_si_draws_mosfet(
    from: NormalizedCell,
    to: NormalizedCell,
    plus: NormalizedCell,
    minus: NormalizedCell,
    dir: IVec2,
    paint_n: bool,
    fp: Placement,
    tp: Placement,
)
    requires
        is_cardinal(dir),
        from.si == (Silicon::NP { is_n: paint_n, placement: fp }),
        to.si == (Silicon::NP { is_n: !paint_n, placement: tp }),
        !tp.spec_has_cardinal(dir),
        plus.si.spec_matches_n(!paint_n),
        minus.si.spec_matches_n(!paint_n),
    ensures
        spec_brush_si(Some(from), to, plus, minus, dir, paint_n).0 == Some(
            NormalizedCell { si: Silicon::NP { is_n: paint_n, placement: spec_with(fp, dir) }, ..from },
        ),
        spec_brush_si(Some(from), to, plus, minus, dir, paint_n).1 == (NormalizedCell {
            si: Silicon::Mosfet {
                is_npn: !paint_n,
                gate_placement: spec_with(Placement::spec_none(), spec_opposite(dir)),
                ec_placement: tp,
            },
            ..to
        }),
{
}

/// Without a from-cell the brush only paints the to-cell.
pub proof fn lemma_brush_si_paints_alone(to: NormalizedCell, plus: NormalizedCell, minus: NormalizedCell, dir: IVec2, paint_n: bool)
    ensures
        spec_brush_si(None, to, plus, minus, dir, paint_n) == (None::<NormalizedCell>, spec_painted_si(to, paint_n)),
{
}

/// The neighbour one step away in the cardinal direction `dir`.
pub open spec fn spec_neighbor_toward(nb: CellNeighbors, dir: IVec2) -> NormalizedCell {
    if dir.x == 0 && dir.y == 1 {
        nb.up
    } else if dir.x == 1 && dir.y == 0 {
        nb.right
    } else if dir.x == 0 && dir.y == -1 {
        nb.down
    } else {
        nb.left
    }
}

/// The neighbour `n`, one step away in `dir`, is NP silicon of type `is_n` that reaches back.
pub open spec fn spec_np_reaches_back(n: NormalizedCell, is_n: bool, dir: IVec2) -> bool {
    n.si matches Silicon::NP { is_n: t, placement } && t == is_n && placement.spec_has_cardinal(spec_opposite(dir))
}

/// Every direction of `p` leads to NP silicon of type `is_n` that reaches back.
pub open spec fn spec_links_return(p: Placement, is_n: bool, nb: CellNeighbors) -> bool {
    &&& p.up ==> spec_np_reaches_back(nb.up, is_n, unit_up())
    &&& p.right ==> spec_np_reaches_back(nb.right, is_n, unit_right())
    &&& p.down ==> spec_np_reaches_back(nb.down, is_n, unit_down())
    &&& p.left ==> spec_np_reaches_back(nb.left, is_n, unit_left())
}

/// The center of `p` is set exactly when it reaches some direction.
pub open spec fn spec_center_consistent(p: Placement) -> bool {
    p.center == (p.up || p.right || p.down || p.left)
}

/// Fixing a MOSFET cell checks its emitter/collector against silicon of the MOSFET's type and its
/// gate against silicon of the other type: a direction towards NP silicon of the matching type
/// that reaches back is kept, one towards NP silicon of the wrong type or towards no silicon is
/// dropped, and no direction is added. The MOSFET keeps its type.
pub proof fn lemma_fix_mosfet_links(cell: NormalizedCell, nb: CellNeighbors, dir: IVec2, is_npn: bool, g: Placement, e: Placement)
    requires
        is_cardinal(dir),
        cell.si == (Silicon::Mosfet { is_npn, gate_placement: g, ec_placement: e }),
    ensures
        spec_fixed(cell, nb).si matches Silicon::Mosfet { is_npn: t, gate_placement: g2, ec_placement: e2 } && {
            let n = spec_neighbor_toward(nb, dir);
            &&& t == is_npn
            &&& e.spec_has_cardinal(dir) && spec_np_reaches_back(n, is_npn, dir) ==> e2.spec_has_cardinal(dir)
            &&& g.spec_has_cardinal(dir) && spec_np_reaches_back(n, !is_npn, dir) ==> g2.spec_has_cardinal(dir)
            &&& (n.si matches Silicon::NP { is_n, .. } && is_n != is_npn) ==> !e2.spec_has_cardinal(dir)
            &&& (n.si matches Silicon::NP { is_n, .. } && is_n == is_npn) ==> !g2.spec_has_cardinal(dir)
            &&& n.si is Absent ==> !e2.spec_has_cardinal(dir) && !g2.spec_has_cardinal(dir)
            &&& !e.spec_has_cardinal(dir) ==> !e2.spec_has_cardinal(dir)
            &&& !g.spec_has_cardinal(dir) ==> !g2.spec_has_cardinal(dir)
        },
{
}

/// A MOSFET cell whose emitter/collector only leads to NP silicon of its type that reaches back,
/// and whose gate only leads to NP silicon of the other type that reaches back, is left as it is
/// by fixing (its metal, if any, aside).
pub proof fn lemma_fix_consistent_mosfet_unchanged(cell: NormalizedCell, nb: CellNeighbors, is_npn: bool, g: Placement, e: Placement)
    requires
        cell.si == (Silicon::Mosfet { is_npn, gate_placement: g, ec_placement: e }),
        spec_links_return(e, is_npn, nb),
        spec_links_return(g, !is_npn, nb),
        spec_center_consistent(e),
        spec_center_consistent(g),
    ensures
        spec_fixed(cell, nb).si == cell.si,
{
}

/// Fixing an NP cell keeps each direction towards NP silicon of its type that reaches back, drops
/// each direction towards NP silicon of the other type or towards no silicon, adds none, and keeps
/// the cell's type.
pub proof fn lemma_fix_np_links(cell: NormalizedCell, nb: CellNeighbors, dir: IVec2, is_n: bool, p: Placement)
    requires
        is_cardinal(dir),
        cell.si == (Silicon::NP { is_n, placement: p }),
    ensures
        spec_fixed(cell, nb).si matches Silicon::NP { is_n: t, placement: p2 } && {
            let n = spec_neighbor_toward(nb, dir);
            &&& t == is_n
            &&& p.spec_has_cardinal(dir) && spec_np_reaches_back(n, is_n, dir) ==> p2.spec_has_cardinal(dir)
            &&& (n.si matches Silicon::NP { is_n: u, .. } && u != is_n) ==> !p2.spec_has_cardinal(dir)
            &&& n.si is Absent ==> !p2.spec_has_cardinal(dir)
            &&& !p.spec_has_cardinal(dir) ==> !p2.spec_has_cardinal(dir)
        },
{
}

/// Fixing keeps a metal direction exactly when it was there and the neighbour's metal reaches
/// back; the via and the center stay.
pub proof fn lemma_fix_metal_links(cell: NormalizedCell, nb: CellNeighbors, dir: IVec2, v: bool, p: Placement)
    requires
        is_cardinal(dir),
        cell.metal == (Metal::Trace { has_via: v, placement: p }),
    ensures
        spec_fixed(cell, nb).metal matches Metal::Trace { has_via: v2, placement: p2 } && {
            let n = spec_neighbor_toward(nb, dir);
            &&& v2 == v
            &&& p2.center == p.center
            &&& p2.spec_has_cardinal(dir) <==> (p.spec_has_cardinal(dir) && (n.metal matches Metal::Trace { placement: q, .. }
                && q.spec_has_cardinal(spec_opposite(dir))))
        },
{
}

/// Painting silicon of a MOSFET's own type from the MOSFET: along its gate's axis nothing links
/// (the from-cell is not written); across the axis its emitter/collector gains `dir`, its gate is
/// unchanged, and the to-cell (empty or NP silicon of the painted type) reaches back.
pub proof fn lemma_si_link_from_mosfet_same_type(from: NormalizedCell, to: NormalizedCell, dir: IVec2, paint_n: bool, g: Placement, e: Placement)
    requires
        is_cardinal(dir),
        from.si == (Silicon::Mosfet { is_npn: paint_n, gate_placement: g, ec_placement: e }),
        !g.spec_has_cardinal(dir),
        !e.spec_has_cardinal(dir),
        to.si is Absent || (to.si matches Silicon::NP { is_n, .. } && is_n == paint_n),
    ensures
        (g.left || g.right) == (dir.x != 0) ==> spec_si_link(Some(from), to, dir, paint_n).0 is None,
        (g.left || g.right) != (dir.x != 0) ==> {
            &&& spec_si_link(Some(from), to, dir, paint_n).0 matches Some(f)
            &&& f.si matches Silicon::Mosfet { is_npn: t, gate_placement: g2, ec_placement: e2 }
            &&& t == paint_n && g2 == g && e2.spec_has_cardinal(dir) && spec_dirs_within(e, e2)
            &&& f.metal == from.metal && f.cell_loc == from.cell_loc
            &&& spec_si_link(Some(from), to, dir, paint_n).1.si matches Silicon::NP { is_n, placement }
            &&& is_n == paint_n && placement.spec_has_cardinal(spec_opposite(dir))
        },
{
}

/// Painting silicon of the other type than a MOSFET's from the MOSFET: along its gate's axis the
/// gate gains `dir` and the to-cell (empty or NP silicon of the painted type) reaches back; across
/// the axis nothing links (the from-cell is not written).
pub proof fn lemma_si_link_from_mosfet_other_type(from: NormalizedCell, to: NormalizedCell, dir: IVec2, paint_n: bool, g: Placement, e: Placement)
    requires
        is_cardinal(dir),
        from.si == (Silicon::Mosfet { is_npn: !paint_n, gate_placement: g, ec_placement: e }),
        !g.spec_has_cardinal(dir),
        !e.spec_has_cardinal(dir),
        to.si is Absent || (to.si matches Silicon::NP { is_n, .. } && is_n == paint_n),
    ensures
        (g.left || g.right) != (dir.x != 0) ==> spec_si_link(Some(from), to, dir, paint_n).0 is None,
        (g.left || g.right) == (dir.x != 0) ==> {
            &&& spec_si_link(Some(from), to, dir, paint_n).0 matches Some(f)
            &&& f.si matches Silicon::Mosfet { is_npn: t, gate_placement: g2, ec_placement: e2 }
            &&& t == !paint_n && e2 == e && g2.spec_has_cardinal(dir) && spec_dirs_within(g, g2)
            &&& spec_si_link(Some(from), to, dir, paint_n).1.si matches Silicon::NP { is_n, placement }
            &&& is_n == paint_n && placement.spec_has_cardinal(spec_opposite(dir))
        },
{
}

/// Painting metal changes metal placements only: both cells keep their place and silicon, a cell
/// that had metal keeps its via flag and its directions, a to-cell without metal gets metal
/// without a via, and when both cells carry metal they reach each other.
pub proof fn lemma_metal_link_keeps_vias(from: Option<NormalizedCell>, to: NormalizedCell, dir: IVec2)
    requires
        from is Some ==> is_cardinal(dir),
    ensures
        spec_metal_link(from, to, dir).1.si == to.si,
        spec_metal_link(from, to, dir).1.cell_loc == to.cell_loc,
        to.metal matches Metal::Trace { has_via: v, placement: p } ==> spec_metal_link(from, to, dir).1.metal matches Metal::Trace { has_via: v2, placement: p2 }
            && v2 == v && spec_dirs_within(p, p2),
        to.metal is Absent ==> (spec_metal_link(from, to, dir).1.metal matches Metal::Trace { has_via: v2, .. } && !v2),
        from is Some <==> spec_metal_link(from, to, dir).0 is Some,
        spec_metal_link(from, to, dir).0 matches Some(f) ==> (from matches Some(f0) && {
            &&& f.si == f0.si && f.cell_loc == f0.cell_loc
            &&& f0.metal is Absent ==> f.metal is Absent
            &&& f0.metal matches Metal::Trace { has_via: v, placement: p } ==> {
                &&& f.metal matches Metal::Trace { has_via: v2, placement: p2 }
                &&& v2 == v && spec_dirs_within(p, p2) && p2.spec_has_cardinal(dir)
                &&& spec_metal_link(from, to, dir).1.metal matches Metal::Trace { placement: q, .. }
                &&& q.spec_has_cardinal(spec_opposite(dir))
            }
        }),
{
}

/// Placing a via sets the via flag exactly where the cell carries metal over NP silicon, and
/// changes nothing else.
pub proof fn lemma_via_cell_sets_via(cell: NormalizedCell)
    ensures
        spec_via_cell(cell).si == cell.si,
        spec_via_cell(cell).cell_loc == cell.cell_loc,
        cell.metal is Absent ==> spec_via_cell(cell).metal is Absent,
        cell.metal matches Metal::Trace { has_via: v, placement: p } ==> spec_via_cell(cell).metal matches Metal::Trace { has_via: v2, placement: p2 }
            && p2 == p && v2 == (v || cell.si is NP),
{
}

/// Clearing a cell's silicon removes it (and the via above it), keeps the cell's metal placement,
/// and unlinks exactly the neighbours it reached: such a neighbour's silicon no longer reaches
/// back, the others are untouched, and no neighbour changes its metal or its kind of silicon.
pub proof fn lemma_clear_si_unlinks(cell: NormalizedCell, nb: CellNeighbors, dir: IVec2)
    requires
        is_cardinal(dir),
    ensures
        spec_cleared_si(cell, nb).0.si is Absent,
        spec_cleared_si(cell, nb).0.cell_loc == cell.cell_loc,
        cell.metal is Absent ==> spec_cleared_si(cell, nb).0.metal is Absent,
        cell.metal matches Metal::Trace { placement: p, .. } ==> spec_cleared_si(cell, nb).0.metal == (Metal::Trace { has_via: false, placement: p }),
        ({
            let n = spec_neighbor_toward(nb, dir);
            let n2 = spec_neighbor_toward(spec_cleared_si(cell, nb).1, dir);
            &&& n2.metal == n.metal && n2.cell_loc == n.cell_loc
            &&& !spec_si_reaches(cell.si, dir) ==> n2 == n
            &&& spec_si_reaches(cell.si, dir) ==> !spec_si_reaches(n2.si, spec_opposite(dir))
            &&& (n.si is Absent <==> n2.si is Absent)
            &&& (n.si matches Silicon::NP { is_n, placement } ==> n2.si matches Silicon::NP { is_n: t, placement: q }
                && t == is_n && spec_dirs_within(q, placement))
            &&& (n.si matches Silicon::Mosfet { is_npn, .. } ==> n2.si matches Silicon::Mosfet { is_npn: t, .. } && t == is_npn)
        }),
{
}

/// Clearing a cell's metal removes it and unlinks exactly the neighbours it reached: such a
/// neighbour's metal no longer reaches back (its via stays), the others are untouched, and no
/// neighbour changes its silicon.
pub proof fn lemma_clear_metal_unlinks(cell: NormalizedCell, nb: CellNeighbors, dir: IVec2)
    requires
        is_cardinal(dir),
    ensures
        spec_cleared_metal(cell, nb).0.metal is Absent,
        spec_cleared_metal(cell, nb).0.si == cell.si,
        spec_cleared_metal(cell, nb).0.cell_loc == cell.cell_loc,
        ({
            let n = spec_neighbor_toward(nb, dir);
            let n2 = spec_neighbor_toward(spec_cleared_metal(cell, nb).1, dir);
            let reached = cell.metal matches Metal::Trace { placement, .. } && placement.spec_has_cardinal(dir);
            &&& n2.si == n.si && n2.cell_loc == n.cell_loc
            &&& !reached ==> n2 == n
            &&& reached ==> (n.metal is Absent ==> n2.metal is Absent)
            &&& reached ==> (n.metal matches Metal::Trace { has_via: v, placement: q } ==> n2.metal matches Metal::Trace { has_via: v2, placement: q2 }
                && v2 == v && !q2.spec_has_cardinal(spec_opposite(dir)) && spec_dirs_within(q2, q))
        }),
{
}

} // verus!
