use logic_paint::coords::{CellCoord, ChunkCoord, IVec2, LocalCoord, UVec2};
use logic_paint::substrate::buffer::{Buffer, BufferChunk};
use logic_paint::substrate::buffer_delta::{BufferDelta, CellDelta};
use logic_paint::upc::UPC;
use logic_paint::utils::Selection;

#[test]
fn empty_buffer_reads_empty_cells() {
    let b = Buffer::new();
    assert_eq!(b.get_cell(CellCoord::new(5, -9)), UPC::default());
    assert_eq!(b.cell_count(), 0);
    assert!(b.chunks.is_empty());
}

#[test]
fn set_then_get() {
    let mut b = Buffer::new();
    b.set_cell(CellCoord::new(-3, 130), UPC([1, 2, 3, 4]));
    assert_eq!(b.get_cell(CellCoord::new(-3, 130)), UPC([1, 2, 3, 4]));
    assert_eq!(b.get_cell(CellCoord::new(-3, 131)), UPC::default());
    assert_eq!(b.cell_count(), 1);
    assert_eq!(b.chunks.len(), 1);
    assert_eq!(b.chunks[0].chunk_coord, ChunkCoord(IVec2::new(-1, 1)));
}

#[test]
fn setting_an_empty_cell_allocates_nothing() {
    let mut b = Buffer::new();
    b.set_cell(CellCoord::new(1000, 1000), UPC::default());
    assert!(b.chunks.is_empty());
}

#[test]
fn cleared_chunk_is_repurposed() {
    let mut b = Buffer::new();
    b.set_cell(CellCoord::new(0, 0), UPC([1, 0, 0, 0]));
    b.set_cell(CellCoord::new(0, 0), UPC::default());
    assert_eq!(b.cell_count(), 0);
    b.set_cell(CellCoord::new(500, 500), UPC([2, 0, 0, 0]));
    assert_eq!(b.chunks.len(), 1);
    assert_eq!(b.get_cell(CellCoord::new(500, 500)), UPC([2, 0, 0, 0]));
    assert_eq!(b.get_cell(CellCoord::new(0, 0)), UPC::default());
}

#[test]
fn cell_count_counts_non_empty_cells() {
    let mut b = Buffer::new();
    b.set_cell(CellCoord::new(0, 0), UPC([1, 0, 0, 0]));
    b.set_cell(CellCoord::new(1, 0), UPC([0, 1, 0, 0]));
    b.set_cell(CellCoord::new(1, 0), UPC([0, 2, 0, 0]));
    b.set_cell(CellCoord::new(-1, 0), UPC([0, 0, 0, 1]));
    assert_eq!(b.cell_count(), 3);
    b.set_cell(CellCoord::new(0, 0), UPC::default());
    assert_eq!(b.cell_count(), 2);
}

#[test]
fn chunk_set_and_get() {
    let mut c = BufferChunk::new(ChunkCoord(IVec2::new(2, 3)));
    let l = LocalCoord(UVec2 { x: 5, y: 6 });
    c.set_cell(l, UPC([9, 9, 9, 9]));
    assert_eq!(c.get_cell(l), UPC([9, 9, 9, 9]));
    assert_eq!(c.cell_count, 1);
    assert_eq!(c.cells[(6 * 128 + 5) * 4], 9);
}

#[test]
fn clone_is_independent() {
    let mut a = Buffer::new();
    a.set_cell(CellCoord::new(4, 4), UPC([1, 0, 0, 0]));
    let mut b = a.clone();
    b.set_cell(CellCoord::new(4, 4), UPC([2, 0, 0, 0]));
    assert_eq!(a.get_cell(CellCoord::new(4, 4)), UPC([1, 0, 0, 0]));
    assert_eq!(b.get_cell(CellCoord::new(4, 4)), UPC([2, 0, 0, 0]));
}

#[test]
fn delta_apply_gives_target() {
    let mut from = Buffer::new();
    from.set_cell(CellCoord::new(0, 0), UPC([1, 0, 0, 0]));
    from.set_cell(CellCoord::new(300, 0), UPC([2, 0, 0, 0]));
    from.set_cell(CellCoord::new(5, 5), UPC([3, 0, 0, 0]));
    let mut to = Buffer::new();
    to.set_cell(CellCoord::new(0, 0), UPC([1, 0, 0, 0]));
    to.set_cell(CellCoord::new(5, 5), UPC([4, 0, 0, 0]));
    to.set_cell(CellCoord::new(-200, 9), UPC([5, 0, 0, 0]));
    let delta = BufferDelta::new(&from, &to);
    assert_eq!(delta.cell_deltas.len(), 3);
    let applied = delta.apply(&from);
    for c in [CellCoord::new(0, 0), CellCoord::new(300, 0), CellCoord::new(5, 5), CellCoord::new(-200, 9), CellCoord::new(1, 1)] {
        assert_eq!(applied.get_cell(c), to.get_cell(c));
    }
}

#[test]
fn delta_of_equal_buffers_is_empty() {
    let mut a = Buffer::new();
    a.set_cell(CellCoord::new(7, 8), UPC([1, 1, 1, 1]));
    let b = a.clone();
    assert!(BufferDelta::new(&a, &b).cell_deltas.is_empty());
}

#[test]
fn cell_delta_offsets_from_chunk_start() {
    let d = CellDelta::new(CellCoord::new(128, -256), 3, 4, UPC([1, 0, 0, 0]));
    assert_eq!(d.cell_coord, CellCoord::new(131, -252));
    assert_eq!(d.cell, UPC([1, 0, 0, 0]));
}

#[test]
fn clone_selection_moves_the_rectangle_to_the_anchor() {
    let mut b = Buffer::new();
    b.set_cell(CellCoord::new(10, 10), UPC([1, 0, 0, 0]));
    b.set_cell(CellCoord::new(11, 12), UPC([2, 0, 0, 0]));
    b.set_cell(CellCoord::new(13, 10), UPC([3, 0, 0, 0]));
    b.set_cell(CellCoord::new(9, 10), UPC([4, 0, 0, 0]));
    let selection = Selection { lower_left: CellCoord::new(10, 10), upper_right: CellCoord::new(13, 13) };
    let copy = b.clone_selection(&selection, CellCoord::new(10, 10));
    assert_eq!(copy.get_cell(CellCoord::new(0, 0)), UPC([1, 0, 0, 0]));
    assert_eq!(copy.get_cell(CellCoord::new(1, 2)), UPC([2, 0, 0, 0]));
    // The upper right corner is not part of the selection, nor is anything left of it.
    assert_eq!(copy.get_cell(CellCoord::new(3, 0)), UPC::default());
    assert_eq!(copy.get_cell(CellCoord::new(-1, 0)), UPC::default());
    assert_eq!(copy.cell_count(), 2);
}

#[test]
fn clone_selection_of_an_empty_rectangle_is_empty() {
    let mut b = Buffer::new();
    b.set_cell(CellCoord::new(0, 0), UPC([1, 0, 0, 0]));
    let selection = Selection { lower_left: CellCoord::new(5, 0), upper_right: CellCoord::new(0, 5) };
    assert_eq!(b.clone_selection(&selection, CellCoord::new(0, 0)).cell_count(), 0);
}
