use logic_paint::coords::{CellCoord, CellCoordOffset, ChunkCoord, IVec2, LocalCoord, UVec2};

#[test]
fn chunk_and_local_of_negative_cells() {
    let c = CellCoord::new(-1, -129);
    assert_eq!(ChunkCoord::from(c), ChunkCoord(IVec2::new(-1, -2)));
    assert_eq!(LocalCoord::from(c), LocalCoord(UVec2 { x: 127, y: 127 }));
}

#[test]
fn chunk_and_local_of_positive_cells() {
    let c = CellCoord::new(130, 5);
    assert_eq!(ChunkCoord::from(c), ChunkCoord(IVec2::new(1, 0)));
    assert_eq!(LocalCoord::from(c), LocalCoord(UVec2 { x: 2, y: 5 }));
    assert_eq!(LocalCoord::from(c).to_cell_coord(&ChunkCoord::from(c)), c);
}

#[test]
fn chunk_corners() {
    let cc = ChunkCoord(IVec2::new(-2, 3));
    assert_eq!(cc.first_cell_coord(), CellCoord::new(-256, 384));
    assert_eq!(cc.last_cell_coord(), CellCoord::new(-129, 511));
    assert_eq!(CellCoord::from_offset_into_chunk(&cc, 1, 2), CellCoord::new(-255, 386));
}

#[test]
fn upc_index_roundtrip() {
    let l = LocalCoord(UVec2 { x: 3, y: 2 });
    assert_eq!(l.to_upc_idx(), (2 * 128 + 3) * 4);
    assert_eq!(LocalCoord::from_upc_idx(l.to_upc_idx()), l);
}

#[test]
fn offsets_and_conversions() {
    assert_eq!(CellCoordOffset(IVec2::new(-1, 2)).to_cell_coord(CellCoord::new(10, 10)), CellCoord::new(9, 12));
    assert_eq!(CellCoord::from((4, -4)), CellCoord::new(4, -4));
    assert_ne!(u64::from(CellCoord::new(1, 2)), u64::from(CellCoord::new(2, 1)));
    assert_eq!(IVec2::new(1, 2).add(IVec2::new(3, -4)), IVec2::new(4, -2));
    assert_eq!(IVec2::new(1, 2).sub(IVec2::new(3, -4)), IVec2::new(-2, 6));
    assert_eq!(IVec2::new(1, -2).neg(), IVec2::new(-1, 2));
}
