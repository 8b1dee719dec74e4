use vstd::prelude::*;

use crate::coords::{chunk_in_range, CellCoord, ChunkCoord, IVec2, LocalCoord, UVec2, CHUNK_SIZE};
use crate::substrate::buffer::{spec_chunk_index_in, spec_has_chunk_in, spec_local_index, Buffer};
use crate::upc::UPC;

verus! {

/// Stores a sparse set of deltas, encoded as (CellCoord, Cell) tuples. It's not particularly
/// compact in-memory, but compresses just fine. Because cell diffs get added one chunk at a time,
/// a BufferDelta can also be efficiently applied to a Buffer.
pub struct BufferDelta {
    pub cell_deltas: Vec<CellDelta>,
}

/// One changed cell.
#[derive(Clone, Copy, Debug)]
pub struct CellDelta {
    /// The cell coord of this delta.
    pub cell_coord: CellCoord,
    /// The call's value in UPC format. This value will be copied without modification to the
    /// Buffer while being applied (aka zero values are 'clear' ops, non-zero values set the cell).
    pub cell: UPC,
}

impl CellDelta {
    /// The delta that sets the cell at offset `(x, y)` from `first_cell_in_chunk` to `cell`.
    pub fn new(first_cell_in_chunk: CellCoord, x: usize, y: usize, cell: UPC) -> (r: CellDelta)
        requires
            x <= i32::MAX,
            y <= i32::MAX,
            first_cell_in_chunk.0.x + x <= i32::MAX,
            first_cell_in_chunk.0.y + y <= i32::MAX,
        ensures
            r.cell_coord.0.x == first_cell_in_chunk.0.x + x,
            r.cell_coord.0.y == first_cell_in_chunk.0.y + y,
            r.cell == cell,
    {
        let cell_coord = CellCoord(IVec2 { x: first_cell_in_chunk.0.x + x as i32, y: first_cell_in_chunk.0.y + y as i32 });
        CellDelta { cell_coord, cell }
    }
}

/// Some delta in `deltas` is for the cell `c`.
pub open spec fn spec_has_delta(deltas: Seq<CellDelta>, c: CellCoord) -> bool {
    exists|i: int| 0 <= i < deltas.len() && (#[trigger] deltas[i]).cell_coord == c
}

/// The cell `c` after applying `deltas` to `from`: the last delta for `c`, or `from`'s cell.
pub open spec fn spec_applied(deltas: Seq<CellDelta>, from: Buffer, c: CellCoord) -> UPC
    decreases deltas.len(),
{
    if deltas.len() == 0 {
        from.spec_get(c)
    } else if deltas.last().cell_coord == c {
        deltas.last().cell
    } else {
        spec_applied(deltas.drop_last(), from, c)
    }
}

/// Every chunk of the buffer has a chunk coord whose cells all have `i32` coordinates.
pub open spec fn spec_chunks_in_range(b: Buffer) -> bool {
    forall|i: int| 0 <= i < b.chunks@.len() ==> chunk_in_range(#[trigger] b.chunks@[i].chunk_coord)
}

/// The cell at offset `(x, y)` of an in-range chunk lies in that chunk, at row-major index
/// `y * CHUNK_SIZE + x`.
proof fn lemma_offset_in_chunk(cc: ChunkCoord, x: int, y: int)
    requires
        chunk_in_range(cc),
        0 <= x < 128,
        0 <= y < 128,
    ensures
        CellCoord::spec_from_offset_into_chunk(cc, x, y).spec_chunk() == cc,
        spec_local_index(CellCoord::spec_from_offset_into_chunk(cc, x, y).spec_local()) == y * 128 + x,
{
    let c = CellCoord::spec_from_offset_into_chunk(cc, x, y);
    let a = cc.0.x as int;
    let b = cc.0.y as int;
    assert((a * 128 + x) / 128 == a && (a * 128 + x) % 128 == x) by (nonlinear_arith)
        requires
            0 <= x < 128,
    ;
    assert((b * 128 + y) / 128 == b && (b * 128 + y) % 128 == y) by (nonlinear_arith)
        requires
            0 <= y < 128,
    ;
    assert(c.0.x == a * 128 + x);
    assert(c.0.y == b * 128 + y);
}

/// In a buffer, the chunk at index `i` is the one that `spec_get` reads for its chunk coord.
proof fn lemma_chunk_index(b: Buffer, i: int)
    requires
        b.wf(),
        0 <= i < b.chunks@.len(),
    ensures
        spec_has_chunk_in(b.chunks@, b.chunks@[i].chunk_coord),
        spec_chunk_index_in(b.chunks@, b.chunks@[i].chunk_coord) == i,
{
    let cc = b.chunks@[i].chunk_coord;
    assert(spec_has_chunk_in(b.chunks@, cc));
    let j = spec_chunk_index_in(b.chunks@, cc);
    assert(b.chunks@[j].chunk_coord == cc);
}

/// The index of the chunk of `b` with chunk coord `cc`, if there is one.
fn find_chunk(b: &Buffer, cc: ChunkCoord) -> (r: Option<usize>)
    requires
        b.wf(),
    ensures
        r is None <==> !spec_has_chunk_in(b.chunks@, cc),
        r matches Some(i) ==> i < b.chunks@.len() && b.chunks@[i as int].chunk_coord == cc && spec_chunk_index_in(b.chunks@, cc) == i,
{
    let mut i: usize = 0;
    while i < b.chunks.len()
        invariant
            b.wf(),
            i <= b.chunks@.len(),
            forall|k: int| 0 <= k < i ==> #[trigger] b.chunks@[k].chunk_coord != cc,
        decreases b.chunks@.len() - i,
    {
        if b.chunks[i].chunk_coord == cc {
            proof {
                lemma_chunk_index(*b, i as int);
            }
            return Some(i);
        }
        i = i + 1;
    }
    None
}

/// The chunk coords of `from` followed by those of `to` that `from` lacks.
fn union_chunk_coords(from: &Buffer, to: &Buffer) -> (r: Vec<ChunkCoord>)
    requires
        from.wf(),
        to.wf(),
    ensures
        forall|k: int| 0 <= k < r@.len() ==> spec_has_chunk_in(from.chunks@, #[trigger] r@[k]) || spec_has_chunk_in(to.chunks@, r@[k]),
        forall|cc: ChunkCoord| spec_has_chunk_in(from.chunks@, cc) || spec_has_chunk_in(to.chunks@, cc) ==> r@.contains(cc),
{
    let mut coords: Vec<ChunkCoord> = Vec::new();
    let mut i: usize = 0;
    while i < from.chunks.len()
        invariant
            i <= from.chunks@.len(),
            coords@.len() == i,
            forall|k: int| 0 <= k < i ==> #[trigger] coords@[k] == from.chunks@[k].chunk_coord,
        decreases from.chunks@.len() - i,
    {
        coords.push(from.chunks[i].chunk_coord);
        i = i + 1;
    }
    proof {
        assert forall|k: int| 0 <= k < from.chunks@.len() implies coords@.contains(#[trigger] from.chunks@[k].chunk_coord) by {
            assert(coords@[k] == from.chunks@[k].chunk_coord);
        }
        assert forall|k: int| 0 <= k < coords@.len() implies spec_has_chunk_in(from.chunks@, #[trigger] coords@[k]) by {
            assert(coords@[k] == from.chunks@[k].chunk_coord);
        }
    }
    let mut j: usize = 0;
    while j < to.chunks.len()
        invariant
            from.wf(),
            to.wf(),
            j <= to.chunks@.len(),
            forall|k: int| 0 <= k < from.chunks@.len() ==> coords@.contains(#[trigger] from.chunks@[k].chunk_coord),
            forall|k: int| 0 <= k < j ==> coords@.contains(#[trigger] to.chunks@[k].chunk_coord),
            forall|k: int| 0 <= k < coords@.len() ==> spec_has_chunk_in(from.chunks@, #[trigger] coords@[k]) || spec_has_chunk_in(to.chunks@, coords@[k]),
        decreases to.chunks@.len() - j,
    {
        let cc = to.chunks[j].chunk_coord;
        let ghost before = coords@;
        if find_chunk(from, cc).is_none() {
            coords.push(cc);
            proof {
                assert(coords@[before.len() as int] == cc);
                assert forall|k: int| 0 <= k < from.chunks@.len() implies coords@.contains(#[trigger] from.chunks@[k].chunk_coord) by {
                    assert(before.contains(from.chunks@[k].chunk_coord));
                    let w = choose|w: int| 0 <= w < before.len() && before[w] == from.chunks@[k].chunk_coord;
                    assert(coords@[w] == before[w]);
                }
                assert forall|k: int| 0 <= k < j implies coords@.contains(#[trigger] to.chunks@[k].chunk_coord) by {
                    assert(before.contains(to.chunks@[k].chunk_coord));
                    let w = choose|w: int| 0 <= w < before.len() && before[w] == to.chunks@[k].chunk_coord;
                    assert(coords@[w] == before[w]);
                }
                assert forall|k: int| 0 <= k < coords@.len() implies spec_has_chunk_in(from.chunks@, #[trigger] coords@[k]) || spec_has_chunk_in(to.chunks@, coords@[k]) by {
                    if k < before.len() {
                        assert(coords@[k] == before[k]);
                    } else {
                        assert(to.chunks@[j as int].chunk_coord == cc);
                    }
                }
            }
        } else {
            proof {
                let w = choose|w: int| 0 <= w < from.chunks@.len() && #[trigger] from.chunks@[w].chunk_coord == cc;
                assert(coords@.contains(from.chunks@[w].chunk_coord));
            }
        }
        j = j + 1;
    }
    proof {
        assert forall|cc: ChunkCoord| spec_has_chunk_in(from.chunks@, cc) || spec_has_chunk_in(to.chunks@, cc) implies coords@.contains(cc) by {
            if spec_has_chunk_in(from.chunks@, cc) {
                let w = choose|w: int| 0 <= w < from.chunks@.len() && #[trigger] from.chunks@[w].chunk_coord == cc;
                assert(coords@.contains(from.chunks@[w].chunk_coord));
            } else {
                let w = choose|w: int| 0 <= w < to.chunks@.len() && #[trigger] to.chunks@[w].chunk_coord == cc;
                assert(coords@.contains(to.chunks@[w].chunk_coord));
            }
        }
    }
    coords
}


/// Two cells in the same chunk at the same row-major index are the same cell.
proof fn lemma_same_cell(c1: CellCoord, c2: CellCoord)
    requires
        c1.spec_chunk() == c2.spec_chunk(),
        spec_local_index(c1.spec_local()) == spec_local_index(c2.spec_local()),
    ensures
        c1 == c2,
{
    crate::coords::lemma_chunk_local_decomposition(c1);
    crate::coords::lemma_chunk_local_decomposition(c2);
    let l1 = c1.spec_local();
    let l2 = c2.spec_local();
    assert(l1.0.x == l2.0.x && l1.0.y == l2.0.y) by (nonlinear_arith)
        requires
            l1.0.y * 128 + l1.0.x == l2.0.y * 128 + l2.0.x,
            l1.0.x < 128,
            l2.0.x < 128,
    ;
}

/// The cell at `c`, given the index (if any) of the chunk of `b` that holds it.
proof fn lemma_get_by_index(b: Buffer, c: CellCoord, i: Option<usize>)
    requires
        b.wf(),
        i is None <==> !spec_has_chunk_in(b.chunks@, c.spec_chunk()),
        i matches Some(ii) ==> spec_chunk_index_in(b.chunks@, c.spec_chunk()) == ii,
    ensures
        b.spec_get(c) == match i {
            Some(ii) => b.chunks@[ii as int].spec_cell(spec_local_index(c.spec_local())),
            None => UPC::spec_default(),
        },
{
}

/// Every delta sets a cell that differs between `from` and `to` to its value in `to`.
pub open spec fn spec_deltas_sound(deltas: Seq<CellDelta>, from: Buffer, to: Buffer) -> bool {
    forall|i: int| 0 <= i < deltas.len() ==> {
        &&& (#[trigger] deltas[i]).cell == to.spec_get(deltas[i].cell_coord)
        &&& from.spec_get(deltas[i].cell_coord) != to.spec_get(deltas[i].cell_coord)
    }
}

proof fn lemma_has_delta_push(deltas: Seq<CellDelta>, d: CellDelta, c: CellCoord)
    requires
        spec_has_delta(deltas, c) || d.cell_coord == c,
    ensures
        spec_has_delta(deltas.push(d), c),
{
    let p = deltas.push(d);
    if spec_has_delta(deltas, c) {
        let w = choose|w: int| 0 <= w < deltas.len() && (#[trigger] deltas[w]).cell_coord == c;
        assert(p[w] == deltas[w]);
    } else {
        assert(p[deltas.len() as int] == d);
    }
}

impl BufferDelta {
    /// Create a delta from two buffers. `from` is the previous buffer, and `to` is the target
    /// buffer. In other words, the delta can be applied to `from` and will result in `to` as an
    /// output: there is a delta for each cell that differs, and each delta holds the cell's value
    /// in `to`.
    pub fn new(from: &Buffer, to: &Buffer) -> (r: BufferDelta)
        requires
            from.wf(),
            to.wf(),
            spec_chunks_in_range(*from),
            spec_chunks_in_range(*to),
        ensures
            spec_deltas_sound(r.cell_deltas@, *from, *to),
            forall|c: CellCoord| from.spec_get(c) != to.spec_get(c) ==> #[trigger] spec_has_delta(r.cell_deltas@, c),
    {
        let coords = union_chunk_coords(from, to);
        let mut cell_deltas: Vec<CellDelta> = Vec::new();
        let mut k: usize = 0;
        while k < coords.len()
            invariant
                from.wf(),
                to.wf(),
                spec_chunks_in_range(*from),
                spec_chunks_in_range(*to),
                k <= coords@.len(),
                forall|m: int| 0 <= m < coords@.len() ==> spec_has_chunk_in(from.chunks@, #[trigger] coords@[m]) || spec_has_chunk_in(to.chunks@, coords@[m]),
                forall|cc: ChunkCoord| spec_has_chunk_in(from.chunks@, cc) || spec_has_chunk_in(to.chunks@, cc) ==> coords@.contains(cc),
                spec_deltas_sound(cell_deltas@, *from, *to),
                forall|c: CellCoord| from.spec_get(c) != to.spec_get(c) && coords@.take(k as int).contains(c.spec_chunk())
                    ==> #[trigger] spec_has_delta(cell_deltas@, c),
            decreases coords@.len() - k,
        {
            let cc = coords[k];
            let fi = find_chunk(from, cc);
            let ti = find_chunk(to, cc);
            proof {
                assert(spec_has_chunk_in(from.chunks@, coords@[k as int]) || spec_has_chunk_in(to.chunks@, coords@[k as int]));
                if spec_has_chunk_in(from.chunks@, cc) {
                    let w = choose|w: int| 0 <= w < from.chunks@.len() && #[trigger] from.chunks@[w].chunk_coord == cc;
                    assert(chunk_in_range(from.chunks@[w].chunk_coord));
                } else {
                    let w = choose|w: int| 0 <= w < to.chunks@.len() && #[trigger] to.chunks@[w].chunk_coord == cc;
                    assert(chunk_in_range(to.chunks@[w].chunk_coord));
                }
            }
            let first_cell_coord = cc.first_cell_coord();
            let mut y: usize = 0;
            while y < CHUNK_SIZE
                invariant
                    from.wf(),
                    to.wf(),
                    chunk_in_range(cc),
                    first_cell_coord == cc.spec_first_cell_coord(),
                    fi is None <==> !spec_has_chunk_in(from.chunks@, cc),
                    fi matches Some(i) ==> i < from.chunks@.len() && from.chunks@[i as int].chunk_coord == cc && spec_chunk_index_in(from.chunks@, cc) == i,
                    ti is None <==> !spec_has_chunk_in(to.chunks@, cc),
                    ti matches Some(i) ==> i < to.chunks@.len() && to.chunks@[i as int].chunk_coord == cc && spec_chunk_index_in(to.chunks@, cc) == i,
                    y <= CHUNK_SIZE,
                    spec_deltas_sound(cell_deltas@, *from, *to),
                    forall|c: CellCoord| from.spec_get(c) != to.spec_get(c) && coords@.take(k as int).contains(c.spec_chunk())
                        ==> #[trigger] spec_has_delta(cell_deltas@, c),
                    forall|c: CellCoord| from.spec_get(c) != to.spec_get(c) && c.spec_chunk() == cc
                        && spec_local_index(c.spec_local()) < y * 128 ==> #[trigger] spec_has_delta(cell_deltas@, c),
                decreases CHUNK_SIZE - y,
            {
                let mut x: usize = 0;
                while x < CHUNK_SIZE
                    invariant
                        from.wf(),
                        to.wf(),
                        chunk_in_range(cc),
                        first_cell_coord == cc.spec_first_cell_coord(),
                        fi is None <==> !spec_has_chunk_in(from.chunks@, cc),
                        fi matches Some(i) ==> i < from.chunks@.len() && from.chunks@[i as int].chunk_coord == cc && spec_chunk_index_in(from.chunks@, cc) == i,
                        ti is None <==> !spec_has_chunk_in(to.chunks@, cc),
                        ti matches Some(i) ==> i < to.chunks@.len() && to.chunks@[i as int].chunk_coord == cc && spec_chunk_index_in(to.chunks@, cc) == i,
                        y < CHUNK_SIZE,
                        x <= CHUNK_SIZE,
                        spec_deltas_sound(cell_deltas@, *from, *to),
                        forall|c: CellCoord| from.spec_get(c) != to.spec_get(c) && coords@.take(k as int).contains(c.spec_chunk())
                            ==> #[trigger] spec_has_delta(cell_deltas@, c),
                        forall|c: CellCoord| from.spec_get(c) != to.spec_get(c) && c.spec_chunk() == cc
                            && spec_local_index(c.spec_local()) < y * 128 + x ==> #[trigger] spec_has_delta(cell_deltas@, c),
                    decreases CHUNK_SIZE - x,
                {
                    let local_coord = LocalCoord(UVec2 { x: x as u32, y: y as u32 });
                    let ghost c0 = CellCoord::spec_from_offset_into_chunk(cc, x as int, y as int);
                    let ghost l0 = y * 128 + x;
                    proof {
                        lemma_offset_in_chunk(cc, x as int, y as int);
                        assert(spec_local_index(local_coord) == l0);
                        lemma_get_by_index(*from, c0, fi);
                        lemma_get_by_index(*to, c0, ti);
                        if fi is Some {
                            assert(from.chunks@[fi->0 as int].wf());
                        }
                        if ti is Some {
                            assert(to.chunks@[ti->0 as int].wf());
                        }
                    }
                    let ghost before = cell_deltas@;
                    let mut pushed = false;
                    match (fi, ti) {
                        (None, None) => {},
                        (None, Some(t)) => {
                            let cell = to.chunks[t].get_cell(local_coord);
                            // Only encode newly set cells
                            if cell != UPC::default() {
                                cell_deltas.push(CellDelta::new(first_cell_coord, x, y, cell));
                                pushed = true;
                            }
                        },
                        (Some(f), None) => {
                            let cell = from.chunks[f].get_cell(local_coord);
                            // Encode all from cells as empty (they were all unset)
                            if cell != UPC::default() {
                                cell_deltas.push(CellDelta::new(first_cell_coord, x, y, UPC::default()));
                                pushed = true;
                            }
                        },
                        (Some(f), Some(t)) => {
                            let from_cell = from.chunks[f].get_cell(local_coord);
                            let to_cell = to.chunks[t].get_cell(local_coord);
                            // Encode the `to` cell anywhere that from != to (that they changed)
                            if from_cell != to_cell {
                                cell_deltas.push(CellDelta::new(first_cell_coord, x, y, to_cell));
                                pushed = true;
                            }
                        },
                    }
                    proof {
                        if pushed {
                            let d = cell_deltas@.last();
                            assert(cell_deltas@ == before.push(d));
                            assert(d.cell_coord == c0);
                            assert forall|i: int| 0 <= i < cell_deltas@.len() implies {
                                &&& (#[trigger] cell_deltas@[i]).cell == to.spec_get(cell_deltas@[i].cell_coord)
                                &&& from.spec_get(cell_deltas@[i].cell_coord) != to.spec_get(cell_deltas@[i].cell_coord)
                            } by {
                                if i < before.len() {
                                    assert(cell_deltas@[i] == before[i]);
                                }
                            }
                            assert forall|c: CellCoord| from.spec_get(c) != to.spec_get(c) && coords@.take(k as int).contains(c.spec_chunk())
                                implies #[trigger] spec_has_delta(cell_deltas@, c) by {
                                lemma_has_delta_push(before, d, c);
                            }
                        } else {
                            assert(from.spec_get(c0) == to.spec_get(c0));
                        }
                        assert forall|c: CellCoord| from.spec_get(c) != to.spec_get(c) && c.spec_chunk() == cc
                            && spec_local_index(c.spec_local()) < y * 128 + x + 1 implies #[trigger] spec_has_delta(cell_deltas@, c) by {
                            if spec_local_index(c.spec_local()) == l0 {
                                lemma_same_cell(c, c0);
                                if pushed {
                                    lemma_has_delta_push(before, cell_deltas@.last(), c);
                                }
                            } else if pushed {
                                lemma_has_delta_push(before, cell_deltas@.last(), c);
                            }
                        }
                    }
                    x = x + 1;
                }
                y = y + 1;
            }
            proof {
                assert forall|c: CellCoord| from.spec_get(c) != to.spec_get(c) && coords@.take(k + 1).contains(c.spec_chunk())
                    implies #[trigger] spec_has_delta(cell_deltas@, c) by {
                    let w = choose|w: int| 0 <= w < k + 1 && #[trigger] coords@.take(k + 1)[w] == c.spec_chunk();
                    if w < k {
                        assert(coords@.take(k as int)[w] == c.spec_chunk());
                    } else {
                        crate::coords::lemma_chunk_local_decomposition(c);
                    }
                }
            }
            k = k + 1;
        }
        proof {
            assert(coords@.take(coords@.len() as int) =~= coords@);
            assert forall|c: CellCoord| from.spec_get(c) != to.spec_get(c) implies #[trigger] spec_has_delta(cell_deltas@, c) by {
                let cc = c.spec_chunk();
                if !spec_has_chunk_in(from.chunks@, cc) && !spec_has_chunk_in(to.chunks@, cc) {
                    assert(from.spec_get(c) == UPC::spec_default());
                }
            }
        }
        BufferDelta { cell_deltas }
    }

    /// Apply this delta to the `from` buffer, returning what would have been passed into the
    /// `to` arg of the `new` method: each delta sets its cell, in order.
    pub fn apply(&self, from: &Buffer) -> (r: Buffer)
        requires
            from.wf(),
        ensures
            r.wf(),
            forall|c: CellCoord| #[trigger] r.spec_get(c) == spec_applied(self.cell_deltas@, *from, c),
    {
        let mut to = from.clone();
        let mut i: usize = 0;
        while i < self.cell_deltas.len()
            invariant
                i <= self.cell_deltas@.len(),
                to.wf(),
                forall|c: CellCoord| #[trigger] to.spec_get(c) == spec_applied(self.cell_deltas@.take(i as int), *from, c),
            decreases self.cell_deltas@.len() - i,
        {
            let cell_delta = self.cell_deltas[i];
            to.set_cell(cell_delta.cell_coord, cell_delta.cell);
            proof {
                let t = self.cell_deltas@.take(i + 1);
                assert(t.drop_last() =~= self.cell_deltas@.take(i as int));
                assert(t.last() == cell_delta);
            }
            i = i + 1;
        }
        assert(self.cell_deltas@.take(self.cell_deltas@.len() as int) =~= self.cell_deltas@);
        to
    }
}

/// Applying to `from` the delta made from `from` and `to` gives back `to`, cell by cell.
pub proof fn lemma_delta_roundtrip(deltas: Seq<CellDelta>, from: Buffer, to: Buffer, c: CellCoord)
    requires
        spec_deltas_sound(deltas, from, to),
        from.spec_get(c) != to.spec_get(c) ==> spec_has_delta(deltas, c),
    ensures
        spec_applied(deltas, from, c) == to.spec_get(c),
    decreases deltas.len(),
{
    if deltas.len() > 0 {
        let d = deltas.drop_last();
        assert(deltas[deltas.len() - 1] == deltas.last());
        assert forall|i: int| 0 <= i < d.len() implies {
            &&& (#[trigger] d[i]).cell == to.spec_get(d[i].cell_coord)
            &&& from.spec_get(d[i].cell_coord) != to.spec_get(d[i].cell_coord)
        } by {
            assert(d[i] == deltas[i]);
        }
        if deltas.last().cell_coord != c {
            if spec_has_delta(deltas, c) {
                let w = choose|w: int| 0 <= w < deltas.len() && (#[trigger] deltas[w]).cell_coord == c;
                assert(d[w] == deltas[w]);
            }
            lemma_delta_roundtrip(d, from, to, c);
        }
    }
}

} // verus!
