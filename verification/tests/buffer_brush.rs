use logic_paint::coords::IVec2;
use logic_paint::substrate::buffer_brush::{brush_si, clear_cell_metal, clear_cell_si, fix_cell, metal_link, si_link, via_cell, CellNeighbors};
use logic_paint::substrate::normalized_cell::{Metal, NormalizedCell, Silicon};
use logic_paint::substrate::placement::Placement;

fn empty(x: i32, y: i32) -> NormalizedCell {
    NormalizedCell { cell_loc: IVec2::new(x, y), metal: Metal::Absent, si: Silicon::Absent }
}

fn np(x: i32, y: i32, is_n: bool, placement: Placement) -> NormalizedCell {
    NormalizedCell { cell_loc: IVec2::new(x, y), metal: Metal::Absent, si: Silicon::NP { is_n, placement } }
}

fn metal(x: i32, y: i32, placement: Placement) -> NormalizedCell {
    NormalizedCell { cell_loc: IVec2::new(x, y), metal: Metal::Trace { has_via: false, placement }, si: Silicon::Absent }
}

#[test]
fn si_link_paints_and_connects_same_type() {
    let from = np(0, 0, true, Placement::center_only());
    let (f, t) = si_link(Some(from), empty(1, 0), IVec2::new(1, 0), true);
    assert_eq!(f.unwrap().si, Silicon::NP { is_n: true, placement: Placement::right() });
    assert_eq!(t.si, Silicon::NP { is_n: true, placement: Placement::left() });
}

#[test]
fn si_link_over_other_type_makes_a_mosfet() {
    // Painting P from the left over an N trace running up and down.
    let from = np(0, 0, false, Placement::center_only());
    let to = np(1, 0, true, Placement::up().bitor(Placement::down()));
    let (f, t) = si_link(Some(from), to, IVec2::new(1, 0), false);
    assert_eq!(f.unwrap().si, Silicon::NP { is_n: false, placement: Placement::right() });
    assert_eq!(
        t.si,
        Silicon::Mosfet { is_npn: true, gate_placement: Placement::left(), ec_placement: Placement::up().bitor(Placement::down()) }
    );
}

#[test]
fn si_link_that_cannot_connect_only_paints() {
    // An N trace that already runs on to the right cannot become a MOSFET.
    let from = np(0, 0, false, Placement::center_only());
    let to = np(1, 0, true, Placement::left().bitor(Placement::right()));
    let (f, t) = si_link(Some(from), to, IVec2::new(1, 0), false);
    assert!(f.is_none());
    assert_eq!(t, to);
    // Without a from-cell, an empty cell is just painted.
    let (f, t) = si_link(None, empty(3, 3), IVec2::new(0, 0), true);
    assert!(f.is_none());
    assert_eq!(t.si, Silicon::NP { is_n: true, placement: Placement::center_only() });
}

#[test]
fn metal_link_joins_both_cells() {
    let (f, t) = metal_link(Some(metal(0, 0, Placement::center_only())), empty(0, 1), IVec2::new(0, 1));
    assert_eq!(f.unwrap().metal, Metal::Trace { has_via: false, placement: Placement::up() });
    assert_eq!(t.metal, Metal::Trace { has_via: false, placement: Placement::down() });
}

#[test]
fn via_only_over_np_silicon() {
    let mut c = np(0, 0, true, Placement::center_only());
    c.metal = Metal::Trace { has_via: false, placement: Placement::center_only() };
    assert_eq!(via_cell(c).metal, Metal::Trace { has_via: true, placement: Placement::center_only() });
    let m = metal(0, 0, Placement::center_only());
    assert_eq!(via_cell(m), m);
}

#[test]
fn fix_cell_drops_unreturned_connections() {
    // Metal reaching up and right; only the cell above reaches back.
    let cell = metal(0, 0, Placement::up().bitor(Placement::right()));
    let nb = CellNeighbors {
        up: metal(0, 1, Placement::down()),
        right: metal(1, 0, Placement::center_only()),
        down: empty(0, -1),
        left: empty(-1, 0),
    };
    assert_eq!(fix_cell(cell, &nb).metal, Metal::Trace { has_via: false, placement: Placement::up() });
    // N silicon reaching left into a PNP gate keeps the link; into P silicon it does not.
    let si = np(0, 0, true, Placement::left().bitor(Placement::down()));
    let nb = CellNeighbors {
        up: empty(0, 1),
        right: empty(1, 0),
        down: np(0, -1, false, Placement::up()),
        left: NormalizedCell {
            cell_loc: IVec2::new(-1, 0),
            metal: Metal::Absent,
            si: Silicon::Mosfet { is_npn: false, gate_placement: Placement::right(), ec_placement: Placement::up().bitor(Placement::down()) },
        },
    };
    assert_eq!(fix_cell(si, &nb).si, Silicon::NP { is_n: true, placement: Placement::left() });
}

#[test]
fn clearing_unlinks_neighbours() {
    let cell = np(0, 0, true, Placement::up());
    let nb = CellNeighbors { up: np(0, 1, true, Placement::down()), right: empty(1, 0), down: empty(0, -1), left: empty(-1, 0) };
    let (c, n) = clear_cell_si(cell, &nb);
    assert_eq!(c.si, Silicon::Absent);
    assert_eq!(n.up.si, Silicon::NP { is_n: true, placement: Placement::center_only() });
    let cell = metal(0, 0, Placement::left());
    let nb = CellNeighbors { up: empty(0, 1), right: empty(1, 0), down: empty(0, -1), left: metal(-1, 0, Placement::right()) };
    let (c, n) = clear_cell_metal(cell, &nb);
    assert_eq!(c.metal, Metal::Absent);
    assert_eq!(n.left.metal, Metal::Trace { has_via: false, placement: Placement::center_only() });
}

#[test]
fn brush_si_draws_a_mosfet_between_opposite_cells() {
    // Painting N from an N cell onto a P trace that runs up and down, with P above and below.
    let from = np(0, 0, true, Placement::center_only());
    let to = np(1, 0, false, Placement::up().bitor(Placement::down()));
    let plus = np(1, 1, false, Placement::down());
    let minus = np(1, -1, false, Placement::up());
    let (f, t) = brush_si(Some(from), to, plus, minus, IVec2::new(1, 0), true);
    assert_eq!(f.unwrap().si, Silicon::NP { is_n: true, placement: Placement::right() });
    assert_eq!(
        t.si,
        Silicon::Mosfet { is_npn: false, gate_placement: Placement::left(), ec_placement: Placement::up().bitor(Placement::down()) }
    );
    // Without opposite cells across the stroke, nothing joins.
    let (f, t) = brush_si(Some(from), to, np(1, 1, true, Placement::center_only()), minus, IVec2::new(1, 0), true);
    assert_eq!(f, Some(from));
    assert_eq!(t, to);
}

#[test]
fn fix_cell_twice_is_fix_cell_once() {
    let cell = NormalizedCell {
        cell_loc: IVec2::new(0, 0),
        metal: Metal::Trace { has_via: true, placement: Placement::up().bitor(Placement::right()) },
        si: Silicon::NP { is_n: true, placement: Placement::left().bitor(Placement::down()) },
    };
    let nb = CellNeighbors {
        up: metal(0, 1, Placement::down()),
        right: metal(1, 0, Placement::up()),
        down: np(0, -1, true, Placement::up()),
        left: np(-1, 0, false, Placement::right()),
    };
    let once = fix_cell(cell, &nb);
    assert_eq!(once.metal, Metal::Trace { has_via: true, placement: Placement::up() });
    assert_eq!(once.si, Silicon::NP { is_n: true, placement: Placement::down() });
    assert_eq!(fix_cell(once, &nb), once);
}

#[test]
fn painting_silicon_keeps_metal() {
    let mut to = metal(1, 0, Placement::left());
    to.si = Silicon::Absent;
    let mut from = np(0, 0, true, Placement::center_only());
    from.metal = Metal::Trace { has_via: true, placement: Placement::right() };
    let (f, t) = si_link(Some(from), to, IVec2::new(1, 0), true);
    assert_eq!(f.unwrap().metal, from.metal);
    assert_eq!(t.metal, to.metal);
    let (f, t) = brush_si(Some(from), to, empty(1, 1), empty(1, -1), IVec2::new(1, 0), true);
    assert_eq!(f.unwrap().metal, from.metal);
    assert_eq!(t.metal, to.metal);
}

#[test]
fn brush_extends_a_gate_into_empty_cells() {
    // An NPN MOSFET with a horizontal gate; painting P to the right extends its gate.
    let from = NormalizedCell {
        cell_loc: IVec2::new(0, 0),
        metal: Metal::Absent,
        si: Silicon::Mosfet { is_npn: true, gate_placement: Placement::left(), ec_placement: Placement::up().bitor(Placement::down()) },
    };
    let (f, t) = brush_si(Some(from), empty(1, 0), empty(1, 1), empty(1, -1), IVec2::new(1, 0), false);
    assert_eq!(
        f.unwrap().si,
        Silicon::Mosfet {
            is_npn: true,
            gate_placement: Placement::left().bitor(Placement::right()),
            ec_placement: Placement::up().bitor(Placement::down())
        }
    );
    assert_eq!(t.si, Silicon::NP { is_n: false, placement: Placement::left() });
}
