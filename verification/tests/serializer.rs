use logic_paint::coords::IVec2;
use logic_paint::substrate::atom::Cell;
use logic_paint::substrate::normalized_cell::{Metal, NormalizedCell, Silicon};
use logic_paint::substrate::placement::Placement;
use logic_paint::substrate::serializer::{deserialize_cell, serialize_cell};

fn roundtrip(nc: NormalizedCell, anchor: IVec2) -> NormalizedCell {
    let cell = Cell::from(nc);
    let bits = serialize_cell(&cell, &anchor);
    NormalizedCell::from(deserialize_cell(bits, &anchor))
}

#[test]
fn packs_offset_into_top_bytes() {
    let nc = NormalizedCell { cell_loc: IVec2::new(131, 2), metal: Metal::Trace { has_via: false, placement: Placement::up() }, si: Silicon::Absent };
    let bits = serialize_cell(&Cell::from(nc), &IVec2::new(128, 0));
    assert_eq!(bits >> 24, 3);
    assert_eq!((bits >> 16) & 0xff, 2);
    // Metal, metal up.
    assert_eq!(bits & 0xffff, 1 | 2);
}

#[test]
fn empty_cell_packs_to_zero() {
    let cell = Cell::from(NormalizedCell::default());
    assert_eq!(serialize_cell(&cell, &IVec2::new(0, 0)), 0);
    assert_eq!(deserialize_cell(0, &IVec2::new(0, 0)).len(), 0);
}

#[test]
fn via_cell_roundtrip() {
    let nc = NormalizedCell {
        cell_loc: IVec2::new(1, 1),
        metal: Metal::Trace { has_via: true, placement: Placement::center_only() },
        si: Silicon::NP { is_n: true, placement: Placement::center_only() },
    };
    assert_eq!(roundtrip(nc, IVec2::new(0, 0)), nc);
}

#[test]
fn mosfet_cell_roundtrip() {
    let nc = NormalizedCell {
        cell_loc: IVec2::new(-1, -1),
        metal: Metal::Absent,
        si: Silicon::Mosfet {
            is_npn: false,
            gate_placement: Placement::left().bitor(Placement::right()),
            ec_placement: Placement::up().bitor(Placement::down()),
        },
    };
    assert_eq!(roundtrip(nc, IVec2::new(-128, -128)), nc);
}

use logic_paint::substrate::integrated_circuit::IntegratedCircuit;
use logic_paint::substrate::serializer::{pack_ic, unpack_ic, CellChunkSurrogate, IntegratedCircuitSurrogate};

#[test]
fn empty() {
    let ic = IntegratedCircuit::default();
    let bits = pack_ic(&ic);
    let deserialized_ic = unpack_ic(bits).unwrap();
    assert_eq!(deserialized_ic.chunk_locs().len(), 0);
}

#[test]
fn two_chunks() {
    let one = IVec2::new(1, 1);
    let minus_one = IVec2::new(-1, -1);
    let mut ic = IntegratedCircuit::default();
    ic.commit_cell_changes(vec![
        (
            one,
            NormalizedCell {
                cell_loc: one,
                metal: Metal::Trace { has_via: true, placement: Placement::center_only() },
                si: Silicon::NP { is_n: true, placement: Placement::center_only() },
            }
            .into(),
        ),
        (
            minus_one,
            NormalizedCell {
                cell_loc: minus_one,
                metal: Metal::Trace { has_via: true, placement: Placement::center_only() },
                si: Silicon::NP { is_n: true, placement: Placement::center_only() },
            }
            .into(),
        ),
    ]);

    let bits = pack_ic(&ic);
    let deserialized_ic = unpack_ic(bits).unwrap();
    assert_eq!(deserialized_ic.chunk_locs().len(), 2);
    assert_eq!(
        ic.get_cell_by_location(&one).cloned().map(NormalizedCell::from),
        deserialized_ic.get_cell_by_location(&one).cloned().map(NormalizedCell::from),
    );
    assert_eq!(
        ic.get_cell_by_location(&minus_one).cloned().map(NormalizedCell::from),
        deserialized_ic.get_cell_by_location(&minus_one).cloned().map(NormalizedCell::from),
    );
}

#[test]
fn pack_groups_cells_by_chunk() {
    let mut ic = IntegratedCircuit::default();
    let metal = |x: i32, y: i32| {
        let loc = IVec2::new(x, y);
        (loc, Cell::from(NormalizedCell { cell_loc: loc, metal: Metal::Trace { has_via: false, placement: Placement::center_only() }, si: Silicon::Absent }))
    };
    ic.commit_cell_changes(vec![metal(1, 2), metal(130, 2), metal(3, 4)]);
    let packed = pack_ic(&ic);
    assert_eq!(packed.chunks.len(), 2);
    assert_eq!(packed.chunks[0].chunk_loc, IVec2::new(0, 0));
    assert_eq!(packed.chunks[0].bit_packed_cells, vec![(1 << 24) | (2 << 16) | 1, (3 << 24) | (4 << 16) | 1]);
    assert_eq!(packed.chunks[1].chunk_loc, IVec2::new(1, 0));
    assert_eq!(packed.chunks[1].bit_packed_cells, vec![(2 << 24) | (2 << 16) | 1]);
}

#[test]
fn unpack_rejects_cells_without_atoms() {
    let s = IntegratedCircuitSurrogate {
        chunks: vec![CellChunkSurrogate { chunk_loc: IVec2::new(0, 0), bit_packed_cells: vec![0] }],
        pin_modules: vec![],
    };
    assert!(unpack_ic(s).is_none());
}

#[test]
fn unpack_rejects_dangling_connections() {
    // A metal cell that connects up, with no cell above it.
    let s = IntegratedCircuitSurrogate {
        chunks: vec![CellChunkSurrogate { chunk_loc: IVec2::new(0, 0), bit_packed_cells: vec![1 | 2] }],
        pin_modules: vec![],
    };
    assert!(unpack_ic(s).is_none());
}

#[test]
fn unpack_later_chunk_wins() {
    let s = IntegratedCircuitSurrogate {
        chunks: vec![
            CellChunkSurrogate { chunk_loc: IVec2::new(0, 0), bit_packed_cells: vec![(5 << 24) | 1] },
            CellChunkSurrogate { chunk_loc: IVec2::new(0, 0), bit_packed_cells: vec![(6 << 24) | 1] },
        ],
        pin_modules: vec![],
    };
    let ic = unpack_ic(s).unwrap();
    assert!(ic.get_cell_by_location(&IVec2::new(5, 0)).is_none());
    assert!(ic.get_cell_by_location(&IVec2::new(6, 0)).is_some());
}

#[test]
fn mosfet_circuit_survives_packing() {
    let np = |x: i32, y: i32, placement: Placement| {
        let loc = IVec2::new(x, y);
        (loc, Cell::from(NormalizedCell { cell_loc: loc, metal: Metal::Absent, si: Silicon::NP { is_n: false, placement } }))
    };
    let gate = IVec2::new(1, 0);
    let mosfet = NormalizedCell {
        cell_loc: gate,
        metal: Metal::Absent,
        si: Silicon::Mosfet {
            is_npn: true,
            gate_placement: Placement::left().bitor(Placement::right()),
            ec_placement: Placement::up().bitor(Placement::down()),
        },
    };
    let mut ic = IntegratedCircuit::default();
    ic.commit_cell_changes(vec![
        np(0, 0, Placement::right()),
        np(2, 0, Placement::left()),
        np(1, 1, Placement::down()),
        np(1, -1, Placement::up()),
        (gate, Cell::from(mosfet)),
    ]);
    let unpacked = unpack_ic(pack_ic(&ic)).unwrap();
    for (x, y) in [(0, 0), (2, 0), (1, 1), (1, -1), (1, 0), (5, 5)] {
        let loc = IVec2::new(x, y);
        assert_eq!(
            ic.get_cell_by_location(&loc).cloned().map(NormalizedCell::from),
            unpacked.get_cell_by_location(&loc).cloned().map(NormalizedCell::from),
        );
    }
    assert_eq!(NormalizedCell::from(unpacked.get_cell_by_location(&gate).cloned().unwrap()), mosfet);
}
