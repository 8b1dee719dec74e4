use logic_paint::coords::IVec2;
use logic_paint::substrate::atom::Cell;
use logic_paint::substrate::normalized_cell::{Metal, NormalizedCell, Silicon};
use logic_paint::substrate::placement::Placement;

fn one() -> IVec2 {
    IVec2::new(1, 1)
}

#[test]
fn default_empty() {
    let nc = NormalizedCell::default();
    let cell = Cell::from(nc.clone());
    assert_eq!(cell.len(), 0);
    assert_eq!(NormalizedCell::from(cell), NormalizedCell::default());
}

#[test]
fn cell_metal() {
    // Metal
    let nc = NormalizedCell {
        cell_loc: one(),
        metal: Metal::Trace { has_via: false, placement: Placement::up() },
        si: Silicon::Absent,
    };
    let cell = Cell::from(nc.clone());
    assert_eq!(cell.len(), 1);
    assert_eq!(NormalizedCell::from(cell), nc);
}

#[test]
fn cell_si() {
    // Si
    let nc = NormalizedCell {
        cell_loc: one(),
        metal: Metal::Absent,
        si: Silicon::NP { is_n: true, placement: Placement::right() },
    };
    let cell = Cell::from(nc.clone());
    assert_eq!(cell.len(), 1);
    assert_eq!(NormalizedCell::from(cell), nc);
}

#[test]
fn cell_no_via() {
    // No Via
    let nc = NormalizedCell {
        cell_loc: one(),
        metal: Metal::Trace { has_via: false, placement: Placement::up() },
        si: Silicon::NP { is_n: true, placement: Placement::right() },
    };
    let cell = Cell::from(nc.clone());
    assert_eq!(cell.len(), 2);
    assert_eq!(NormalizedCell::from(cell), nc);
}

#[test]
fn cell_with_via() {
    // Via
    let nc = NormalizedCell {
        cell_loc: one(),
        metal: Metal::Trace { has_via: true, placement: Placement::up() },
        si: Silicon::NP { is_n: true, placement: Placement::right() },
    };
    let cell = Cell::from(nc.clone());
    assert_eq!(cell.len(), 1);
    assert_eq!(NormalizedCell::from(cell), nc);
}

#[test]
fn cell_with_mosfet() {
    // Mosfet
    let nc = NormalizedCell {
        cell_loc: one(),
        metal: Metal::Absent,
        si: Silicon::Mosfet {
            is_npn: true,
            gate_placement: Placement::up().bitor(Placement::down()),
            ec_placement: Placement::left().bitor(Placement::right()),
        },
    };
    let cell = Cell::from(nc.clone());
    assert_eq!(cell.len(), 3);
    assert_eq!(NormalizedCell::from(cell), nc);
}

#[test]
fn cell_with_mosfet_and_metal() {
    // Mosfet
    let nc = NormalizedCell {
        cell_loc: one(),
        metal: Metal::Trace { has_via: false, placement: Placement::up() },
        si: Silicon::Mosfet {
            is_npn: true,
            gate_placement: Placement::up().bitor(Placement::down()),
            ec_placement: Placement::left().bitor(Placement::right()),
        },
    };
    let cell = Cell::from(nc.clone());
    assert_eq!(cell.len(), 4);
    assert_eq!(NormalizedCell::from(cell), nc);
}

#[test]
fn matches_n_by_type() {
    let n = Silicon::NP { is_n: true, placement: Placement::center_only() };
    assert!(n.matches_n(true));
    assert!(!n.matches_n(false));
    let pnp = Silicon::Mosfet { is_npn: false, gate_placement: Placement::up(), ec_placement: Placement::left() };
    assert!(pnp.matches_n(false));
    assert!(!pnp.matches_n(true));
    assert!(!Silicon::Absent.matches_n(true));
    assert!(!Silicon::Absent.matches_n(false));
}
