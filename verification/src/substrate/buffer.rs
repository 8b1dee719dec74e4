use vstd::prelude::*;

use crate::coords::{CellCoord, ChunkCoord, LocalCoord, CHUNK_CELL_COUNT};
use crate::upc::{UPC, UPC_BYTE_LEN};
use crate::utils::Selection;
use crate::coords::IVec2;

verus! {

/// Number of bytes of cell data in a chunk.
pub const CHUNK_BYTE_LEN: usize = 65536;

/// A set of cells, stored as a dense list of chunks. Each chunk tracks how many cells are
/// non-default, and empty chunks are repurposed when a new chunk is needed.
pub struct Buffer {
    /// The chunks that make up this buffer; no two have the same chunk coord.
    pub chunks: Vec<BufferChunk>,
}

/// `CHUNK_SIZE` by `CHUNK_SIZE` cells in UPC format.
pub struct BufferChunk {
    /// The chunk coord. Used by a buffer to index chunks, but not used by the BufferChunk itself.
    pub chunk_coord: ChunkCoord,
    /// How many cells are non-default.
    pub cell_count: usize,
    /// 4-byte cells, in row-major order. Ready for blitting to the GPU.
    pub cells: Vec<u8>,
}

/// The number of non-default cells among the first `n` cells of `cells`.
pub open spec fn spec_count_nonzero(cells: Seq<u8>, n: nat) -> nat
    decreases n,
{
    if n == 0 {
        0
    } else {
        spec_count_nonzero(cells, (n - 1) as nat) + if UPC::spec_from_bytes(cells, 4 * (n - 1)).spec_is_default() {
            0nat
        } else {
            1nat
        }
    }
}

/// The index of a cell within its chunk, in row-major order.
pub open spec fn spec_local_index(l: LocalCoord) -> int {
    l.0.y * 128 + l.0.x
}

proof fn lemma_count_update(cells: Seq<u8>, cells2: Seq<u8>, l: int, n: nat)
    requires
        cells.len() == cells2.len(),
        4 * n <= cells.len(),
        0 <= l,
        forall|k: int| 0 <= k < cells.len() && !(4 * l <= k < 4 * l + 4) ==> cells[k] == cells2[k],
    ensures
        l < n ==> spec_count_nonzero(cells2, n) + (if UPC::spec_from_bytes(cells, 4 * l).spec_is_default() { 0int } else { 1int })
            == spec_count_nonzero(cells, n) + (if UPC::spec_from_bytes(cells2, 4 * l).spec_is_default() { 0int } else { 1int }),
        l >= n ==> spec_count_nonzero(cells2, n) == spec_count_nonzero(cells, n),
    decreases n,
{
    if n > 0 {
        lemma_count_update(cells, cells2, l, (n - 1) as nat);
        if n - 1 != l {
            assert(UPC::spec_from_bytes(cells, 4 * (n - 1)) == UPC::spec_from_bytes(cells2, 4 * (n - 1)));
        }
    }
}

proof fn lemma_count_zero(cells: Seq<u8>, n: nat)
    requires
        4 * n <= cells.len(),
        spec_count_nonzero(cells, n) == 0,
    ensures
        forall|l: int| 0 <= l < n ==> #[trigger] UPC::spec_from_bytes(cells, 4 * l).spec_is_default(),
    decreases n,
{
    if n > 0 {
        lemma_count_zero(cells, (n - 1) as nat);
    }
}

proof fn lemma_count_all_zero(cells: Seq<u8>, n: nat)
    requires
        4 * n <= cells.len(),
        forall|k: int| 0 <= k < cells.len() ==> cells[k] == 0,
    ensures
        spec_count_nonzero(cells, n) == 0,
    decreases n,
{
    if n > 0 {
        lemma_count_all_zero(cells, (n - 1) as nat);
    }
}

/// At most `n` of the first `n` cells are non-default.
pub proof fn lemma_count_bound(cells: Seq<u8>, n: nat)
    ensures
        spec_count_nonzero(cells, n) <= n,
    decreases n,
{
    if n > 0 {
        lemma_count_bound(cells, (n - 1) as nat);
    }
}

proof fn lemma_default_upc(u: UPC)
    ensures
        u.spec_is_default() <==> u == UPC::spec_default(),
{
    if u.spec_is_default() {
        assert(u.0 =~= UPC::spec_default().0);
    }
}

impl BufferChunk {
    /// The chunk holds `CHUNK_CELL_COUNT` 4-byte cells and `cell_count` counts its non-default
    /// cells.
    pub open spec fn wf(&self) -> bool {
        &&& self.cells@.len() == CHUNK_BYTE_LEN
        &&& self.cell_count == spec_count_nonzero(self.cells@, CHUNK_CELL_COUNT as nat)
    }

    /// The UPC of the cell at row-major index `l`.
    pub open spec fn spec_cell(&self, l: int) -> UPC {
        UPC::spec_from_bytes(self.cells@, 4 * l)
    }

    /// An empty chunk at `chunk_coord`.
    pub fn new(chunk_coord: ChunkCoord) -> (r: BufferChunk)
        ensures
            r.wf(),
            r.chunk_coord == chunk_coord,
            r.cell_count == 0,
            forall|l: int| 0 <= l < CHUNK_CELL_COUNT ==> #[trigger] r.spec_cell(l) == UPC::spec_default(),
    {
        let cells = vec![0u8; CHUNK_BYTE_LEN];
        proof {
            lemma_count_all_zero(cells@, CHUNK_CELL_COUNT as nat);
            assert forall|l: int| 0 <= l < CHUNK_CELL_COUNT implies #[trigger] UPC::spec_from_bytes(cells@, 4 * l) == UPC::spec_default() by {
                lemma_default_upc(UPC::spec_from_bytes(cells@, 4 * l));
            }
        }
        BufferChunk { chunk_coord, cells, cell_count: 0 }
    }

    /// The UPC of the cell at `coord`.
    pub fn get_cell(&self, coord: LocalCoord) -> (r: UPC)
        requires
            self.wf(),
            coord.spec_in_chunk(),
        ensures
            r == self.spec_cell(spec_local_index(coord)),
    {
        let idx = coord.to_upc_idx();
        UPC([self.cells[idx], self.cells[idx + 1], self.cells[idx + 2], self.cells[idx + 3]])
    }

    /// Sets the cell at `coord`, keeping `cell_count` up to date.
    pub fn set_cell(&mut self, coord: LocalCoord, cell: UPC)
        requires
            old(self).wf(),
            coord.spec_in_chunk(),
        ensures
            final(self).wf(),
            final(self).chunk_coord == old(self).chunk_coord,
            final(self).spec_cell(spec_local_index(coord)) == cell,
            forall|l: int| 0 <= l < CHUNK_CELL_COUNT && l != spec_local_index(coord)
                ==> #[trigger] final(self).spec_cell(l) == old(self).spec_cell(l),
            final(self).cell_count + (if old(self).spec_cell(spec_local_index(coord)) == UPC::spec_default() { 0int } else { 1int })
                == old(self).cell_count + (if cell == UPC::spec_default() { 0int } else { 1int }),
    {
        let idx = coord.to_upc_idx();
        let existing = UPC([self.cells[idx], self.cells[idx + 1], self.cells[idx + 2], self.cells[idx + 3]]);
        let ghost l = spec_local_index(coord);
        let ghost old_cells = self.cells@;
        assert(existing.0 =~= old(self).spec_cell(l).0);

        // Nothing else to do if the existing and set cell are the same.
        if existing == cell {
            return;
        }

        let default = UPC::default();
        proof {
            lemma_default_upc(existing);
            lemma_default_upc(cell);
            lemma_count_bound(old_cells, CHUNK_CELL_COUNT as nat);
        }
        let ghost old_count = self.cell_count;
        // Track cell counts
        if existing == default && cell != default {
            self.cell_count = self.cell_count + 1;
        } else if existing != default && cell == default {
            proof {
                lemma_count_nonzero_pos(old_cells, l, CHUNK_CELL_COUNT as nat);
            }
            self.cell_count = self.cell_count - 1;
        }

        self.cells.set(idx, cell.0[0]);
        self.cells.set(idx + 1, cell.0[1]);
        self.cells.set(idx + 2, cell.0[2]);
        self.cells.set(idx + 3, cell.0[3]);
        proof {
            lemma_count_update(old_cells, self.cells@, l, CHUNK_CELL_COUNT as nat);
            assert(self.spec_cell(l).0 =~= cell.0);
            assert forall|l2: int| 0 <= l2 < CHUNK_CELL_COUNT && l2 != l implies #[trigger] self.spec_cell(l2) == UPC::spec_from_bytes(old_cells, 4 * l2) by {
                assert(self.spec_cell(l2).0 =~= UPC::spec_from_bytes(old_cells, 4 * l2).0);
            }
        }
    }
}

proof fn lemma_count_nonzero_pos(cells: Seq<u8>, l: int, n: nat)
    requires
        0 <= l < n,
        !UPC::spec_from_bytes(cells, 4 * l).spec_is_default(),
    ensures
        spec_count_nonzero(cells, n) >= 1,
    decreases n,
{
    if l < n - 1 {
        lemma_count_nonzero_pos(cells, l, (n - 1) as nat);
    }
}

} // verus!

verus! {

/// Whether some chunk has the chunk coord `cc`.
pub open spec fn spec_has_chunk_in(chunks: Seq<BufferChunk>, cc: ChunkCoord) -> bool {
    exists|i: int| 0 <= i < chunks.len() && #[trigger] chunks[i].chunk_coord == cc
}

/// The index of the chunk with chunk coord `cc` (meaningful when there is one).
pub open spec fn spec_chunk_index_in(chunks: Seq<BufferChunk>, cc: ChunkCoord) -> int {
    choose|i: int| 0 <= i < chunks.len() && #[trigger] chunks[i].chunk_coord == cc
}

/// The UPC of cell `c` in a list of chunks: the cell of the chunk that holds it, or the empty
/// cell when no chunk does.
pub open spec fn spec_get_in(chunks: Seq<BufferChunk>, c: CellCoord) -> UPC {
    let cc = c.spec_chunk();
    if spec_has_chunk_in(chunks, cc) {
        chunks[spec_chunk_index_in(chunks, cc)].spec_cell(spec_local_index(c.spec_local()))
    } else {
        UPC::spec_default()
    }
}

impl Buffer {
    /// Every chunk is well formed and no two chunks share a chunk coord.
    pub open spec fn wf(&self) -> bool {
        &&& forall|i: int| 0 <= i < self.chunks@.len() ==> (#[trigger] self.chunks@[i]).wf()
        &&& forall|i: int, j: int|
            0 <= i < self.chunks@.len() && 0 <= j < self.chunks@.len() && i != j
                ==> #[trigger] self.chunks@[i].chunk_coord != #[trigger] self.chunks@[j].chunk_coord
    }

    /// Whether some chunk of the buffer has the chunk coord `cc`.
    pub open spec fn spec_has_chunk(&self, cc: ChunkCoord) -> bool {
        spec_has_chunk_in(self.chunks@, cc)
    }

    /// The index of the chunk with chunk coord `cc` (meaningful when there is one).
    pub open spec fn spec_chunk_index(&self, cc: ChunkCoord) -> int {
        spec_chunk_index_in(self.chunks@, cc)
    }

    /// The UPC of cell `c`: the cell of the chunk that holds it, or the empty cell when no chunk
    /// does.
    pub open spec fn spec_get(&self, c: CellCoord) -> UPC {
        spec_get_in(self.chunks@, c)
    }

    /// The sum of the cell counts of the first `n` chunks.
    pub open spec fn spec_count(chunks: Seq<BufferChunk>, n: nat) -> int
        decreases n,
    {
        if n == 0 {
            0
        } else {
            Buffer::spec_count(chunks, (n - 1) as nat) + chunks[n - 1].cell_count
        }
    }

    /// An empty buffer.
    pub fn new() -> (r: Buffer)
        ensures
            r.wf(),
            r.chunks@.len() == 0,
            forall|c: CellCoord| #[trigger] r.spec_get(c) == UPC::spec_default(),
    {
        Buffer { chunks: Vec::new() }
    }

    /// The UPC of the cell at `cell_coord` (the empty cell where no chunk is allocated).
    pub fn get_cell(&self, cell_coord: CellCoord) -> (r: UPC)
        requires
            self.wf(),
        ensures
            r == self.spec_get(cell_coord),
    {
        let chunk_coord = ChunkCoord::from(cell_coord);
        let local = LocalCoord::from(cell_coord);
        proof {
            crate::coords::lemma_chunk_local_decomposition(cell_coord);
        }
        let mut i: usize = 0;
        while i < self.chunks.len()
            invariant
                self.wf(),
                i <= self.chunks@.len(),
                chunk_coord == cell_coord.spec_chunk(),
                local == cell_coord.spec_local(),
                local.spec_in_chunk(),
                forall|k: int| 0 <= k < i ==> #[trigger] self.chunks@[k].chunk_coord != chunk_coord,
            decreases self.chunks@.len() - i,
        {
            if self.chunks[i].chunk_coord == chunk_coord {
                proof {
                    let j = self.spec_chunk_index(chunk_coord);
                    assert(self.chunks@[i as int].chunk_coord == chunk_coord);
                    assert(self.chunks@[j].chunk_coord == chunk_coord);
                }
                return self.chunks[i].get_cell(local);
            }
            i = i + 1;
        }
        // Chunk isn't allocated
        UPC::default()
    }

    /// The number of non-default cells in the buffer; the sum must fit in a `usize`.
    pub fn cell_count(&self) -> (r: usize)
        requires
            self.wf(),
            Buffer::spec_count(self.chunks@, self.chunks@.len()) <= usize::MAX,
        ensures
            r == Buffer::spec_count(self.chunks@, self.chunks@.len()),
    {
        let mut sum: usize = 0;
        let mut i: usize = 0;
        while i < self.chunks.len()
            invariant
                i <= self.chunks@.len(),
                sum == Buffer::spec_count(self.chunks@, i as nat),
                Buffer::spec_count(self.chunks@, self.chunks@.len()) <= usize::MAX,
            decreases self.chunks@.len() - i,
        {
            proof {
                lemma_count_mono(self.chunks@, (i + 1) as nat, self.chunks@.len());
            }
            sum = sum + self.chunks[i].cell_count;
            i = i + 1;
        }
        sum
    }
}

proof fn lemma_count_update_seq(chunks: Seq<BufferChunk>, i: int, c: BufferChunk, n: nat)
    requires
        0 <= i < chunks.len(),
        n <= chunks.len(),
    ensures
        i < n ==> Buffer::spec_count(chunks.update(i, c), n) == Buffer::spec_count(chunks, n) - chunks[i].cell_count + c.cell_count,
        i >= n ==> Buffer::spec_count(chunks.update(i, c), n) == Buffer::spec_count(chunks, n),
    decreases n,
{
    if n > 0 {
        lemma_count_update_seq(chunks, i, c, (n - 1) as nat);
    }
}

proof fn lemma_count_push(chunks: Seq<BufferChunk>, c: BufferChunk, n: nat)
    requires
        n <= chunks.len(),
    ensures
        Buffer::spec_count(chunks.push(c), n) == Buffer::spec_count(chunks, n),
    decreases n,
{
    if n > 0 {
        lemma_count_push(chunks, c, (n - 1) as nat);
    }
}

proof fn lemma_count_mono(chunks: Seq<BufferChunk>, a: nat, b: nat)
    requires
        a <= b,
    ensures
        Buffer::spec_count(chunks, a) <= Buffer::spec_count(chunks, b),
    decreases b,
{
    if a < b {
        lemma_count_mono(chunks, a, (b - 1) as nat);
    }
}

} // verus!

verus! {

/// Two cells in the same chunk at the same index within it are the same cell.
proof fn lemma_same_chunk_same_local(c1: CellCoord, c2: CellCoord)
    requires
        c1.spec_chunk() == c2.spec_chunk(),
        spec_local_index(c1.spec_local()) == spec_local_index(c2.spec_local()),
    ensures
        c1 == c2,
{
    crate::coords::lemma_chunk_local_decomposition(c1);
    crate::coords::lemma_chunk_local_decomposition(c2);
    assert(c1.spec_local() == c2.spec_local());
}

proof fn lemma_local_index_range(c: CellCoord)
    ensures
        0 <= spec_local_index(c.spec_local()) < CHUNK_CELL_COUNT,
{
    crate::coords::lemma_chunk_local_decomposition(c);
}

impl Buffer {
    /// Sets the cell at `cell_coord`. Setting the empty cell where no chunk exists allocates
    /// nothing; otherwise an empty chunk is repurposed before a new one is pushed.
    pub fn set_cell(&mut self, cell_coord: CellCoord, cell: UPC)
        requires
            old(self).wf(),
        ensures
            final(self).wf(),
            forall|c: CellCoord| #[trigger] final(self).spec_get(c) == if c == cell_coord {
                cell
            } else {
                old(self).spec_get(c)
            },
            cell == UPC::spec_default() && !old(self).spec_has_chunk(cell_coord.spec_chunk())
                ==> final(self).chunks@ == old(self).chunks@,
            old(self).spec_has_chunk(cell_coord.spec_chunk()) ==> final(self).chunks@.len() == old(self).chunks@.len(),
            final(self).chunks@.len() == old(self).chunks@.len() || final(self).chunks@.len() == old(self).chunks@.len() + 1,
            final(self).chunks@.len() == old(self).chunks@.len() + 1
                ==> forall|i: int| 0 <= i < old(self).chunks@.len() ==> (#[trigger] old(self).chunks@[i]).cell_count != 0,
            Buffer::spec_count(final(self).chunks@, final(self).chunks@.len())
                + (if old(self).spec_get(cell_coord) == UPC::spec_default() { 0int } else { 1int })
                == Buffer::spec_count(old(self).chunks@, old(self).chunks@.len())
                + (if cell == UPC::spec_default() { 0int } else { 1int }),
    {
        let chunk_coord = ChunkCoord::from(cell_coord);
        let local = LocalCoord::from(cell_coord);
        proof {
            crate::coords::lemma_chunk_local_decomposition(cell_coord);
            lemma_local_index_range(cell_coord);
        }
        let ghost old_chunks = self.chunks@;
        let ghost l = spec_local_index(local);

        // Existing chunks
        let mut i: usize = 0;
        while i < self.chunks.len()
            invariant
                self.wf(),
                self.chunks@ == old_chunks,
                old_chunks == old(self).chunks@,
                i <= self.chunks@.len(),
                chunk_coord == cell_coord.spec_chunk(),
                local == cell_coord.spec_local(),
                local.spec_in_chunk(),
                l == spec_local_index(local),
                forall|k: int| 0 <= k < i ==> #[trigger] self.chunks@[k].chunk_coord != chunk_coord,
            decreases self.chunks@.len() - i,
        {
            if self.chunks[i].chunk_coord == chunk_coord {
                let ghost before = *self;
                self.chunks[i].set_cell(local, cell);
                proof {
                    let ii = i as int;
                    assert(self.chunks@[ii].chunk_coord == chunk_coord);
                    assert forall|a: int, b: int|
                        0 <= a < self.chunks@.len() && 0 <= b < self.chunks@.len() && a != b
                        implies #[trigger] self.chunks@[a].chunk_coord != #[trigger] self.chunks@[b].chunk_coord by {
                        assert(before.chunks@[a].chunk_coord == self.chunks@[a].chunk_coord);
                        assert(before.chunks@[b].chunk_coord == self.chunks@[b].chunk_coord);
                    }
                    assert forall|c: CellCoord| #[trigger] self.spec_get(c) == if c == cell_coord {
                        cell
                    } else {
                        before.spec_get(c)
                    } by {
                        lemma_local_index_range(c);
                        let cc = c.spec_chunk();
                        if cc == chunk_coord {
                            assert(self.spec_has_chunk(cc));
                            assert(before.spec_has_chunk(cc));
                            let j = self.spec_chunk_index(cc);
                            let jb = before.spec_chunk_index(cc);
                            assert(j == ii);
                            assert(jb == ii);
                            if c != cell_coord {
                                if spec_local_index(c.spec_local()) == l {
                                    lemma_same_chunk_same_local(c, cell_coord);
                                }
                            }
                        } else {
                            if self.spec_has_chunk(cc) {
                                let j = self.spec_chunk_index(cc);
                                assert(before.chunks@[j].chunk_coord == cc);
                                assert(before.spec_has_chunk(cc));
                                let jb = before.spec_chunk_index(cc);
                                assert(self.chunks@[jb].chunk_coord == cc);
                                assert(j == jb);
                                assert(j != ii);
                            } else {
                                if before.spec_has_chunk(cc) {
                                    let jb = before.spec_chunk_index(cc);
                                    assert(self.chunks@[jb].chunk_coord == cc);
                                }
                            }
                        }
                    }
                    assert(self.chunks@ =~= before.chunks@.update(ii, self.chunks@[ii]));
                    lemma_count_update_seq(before.chunks@, ii, self.chunks@[ii], before.chunks@.len());
                    assert(before.spec_has_chunk(chunk_coord));
                    assert(before.spec_chunk_index(chunk_coord) == ii);
                }
                return;
            }
            i = i + 1;
        }

        proof {
            assert(!self.spec_has_chunk(chunk_coord));
        }

        // If a default UPC is being set, there is nothing else to do (no point in making an empty
        // chunk).
        if cell == UPC::default() {
            return;
        }

        // See if we have an empty chunk we can repurpose
        let mut i: usize = 0;
        while i < self.chunks.len()
            invariant
                self.wf(),
                self.chunks@ == old_chunks,
                old_chunks == old(self).chunks@,
                !self.spec_has_chunk(chunk_coord),
                i <= self.chunks@.len(),
                chunk_coord == cell_coord.spec_chunk(),
                local == cell_coord.spec_local(),
                local.spec_in_chunk(),
                l == spec_local_index(local),
                cell != UPC::spec_default(),
                forall|k: int| 0 <= k < i ==> (#[trigger] old_chunks[k]).cell_count != 0,
            decreases self.chunks@.len() - i,
        {
            if self.chunks[i].cell_count == 0 {
                let ghost before = *self;
                let ghost ii = i as int;
                let ghost oc = self.chunks@[ii].chunk_coord;
                proof {
                    lemma_count_zero(before.chunks@[ii].cells@, CHUNK_CELL_COUNT as nat);
                    assert forall|k: int| 0 <= k < CHUNK_CELL_COUNT implies #[trigger] before.chunks@[ii].spec_cell(k) == UPC::spec_default() by {
                        lemma_default_upc(before.chunks@[ii].spec_cell(k));
                    }
                }
                proof {
                    if oc == chunk_coord {
                        assert(before.chunks@[ii].chunk_coord == chunk_coord);
                    }
                }
                self.chunks[i].chunk_coord = chunk_coord;
                let ghost mid = self.chunks@[ii];
                proof {
                    assert(mid.cells@ == before.chunks@[ii].cells@);
                    assert forall|k: int| 0 <= k < CHUNK_CELL_COUNT implies #[trigger] mid.spec_cell(k) == UPC::spec_default() by {
                        assert(mid.spec_cell(k) == before.chunks@[ii].spec_cell(k));
                    }
                }
                self.chunks[i].set_cell(local, cell);
                proof {
                    assert(self.chunks@[ii].chunk_coord == chunk_coord);
                    assert forall|a: int, b: int|
                        0 <= a < self.chunks@.len() && 0 <= b < self.chunks@.len() && a != b
                        implies #[trigger] self.chunks@[a].chunk_coord != #[trigger] self.chunks@[b].chunk_coord by {
                        if a == ii {
                            assert(before.chunks@[b].chunk_coord == self.chunks@[b].chunk_coord);
                        } else if b == ii {
                            assert(before.chunks@[a].chunk_coord == self.chunks@[a].chunk_coord);
                        } else {
                            assert(before.chunks@[a].chunk_coord == self.chunks@[a].chunk_coord);
                            assert(before.chunks@[b].chunk_coord == self.chunks@[b].chunk_coord);
                        }
                    }
                    assert forall|c: CellCoord| #[trigger] self.spec_get(c) == if c == cell_coord {
                        cell
                    } else {
                        before.spec_get(c)
                    } by {
                        lemma_local_index_range(c);
                        let cc = c.spec_chunk();
                        if cc == chunk_coord {
                            assert(self.spec_has_chunk(cc));
                            let j = self.spec_chunk_index(cc);
                            assert(j == ii);
                            if c != cell_coord {
                                if spec_local_index(c.spec_local()) == l {
                                    lemma_same_chunk_same_local(c, cell_coord);
                                }
                            }
                        } else if cc == oc {
                            assert(before.spec_has_chunk(cc));
                            assert(before.spec_chunk_index(cc) == ii);
                            if self.spec_has_chunk(cc) {
                                let j = self.spec_chunk_index(cc);
                                assert(before.chunks@[j].chunk_coord == cc);
                            }
                        } else {
                            if self.spec_has_chunk(cc) {
                                let j = self.spec_chunk_index(cc);
                                assert(before.chunks@[j].chunk_coord == cc);
                                assert(before.spec_has_chunk(cc));
                                let jb = before.spec_chunk_index(cc);
                                assert(self.chunks@[jb].chunk_coord == cc);
                            } else {
                                if before.spec_has_chunk(cc) {
                                    let jb = before.spec_chunk_index(cc);
                                    assert(self.chunks@[jb].chunk_coord == cc);
                                }
                            }
                        }
                    }
                    assert(self.chunks@ =~= before.chunks@.update(ii, self.chunks@[ii]));
                    lemma_count_update_seq(before.chunks@, ii, self.chunks@[ii], before.chunks@.len());
                    assert(mid.spec_cell(l) == UPC::spec_default());
                    assert(!before.spec_has_chunk(cell_coord.spec_chunk()));
                }
                return;
            }
            i = i + 1;
        }

        // Otherwise allocate a new chunk and push it to the back.
        let mut chunk = BufferChunk::new(chunk_coord);
        chunk.set_cell(local, cell);
        let ghost before = *self;
        self.chunks.push(chunk);
        proof {
            lemma_count_push(before.chunks@, chunk, before.chunks@.len());
            assert(!before.spec_has_chunk(cell_coord.spec_chunk()));
            let n = before.chunks@.len() as int;
            assert(self.chunks@[n] == chunk);
            assert(self.chunks@[n].chunk_coord == chunk_coord);
            assert forall|a: int, b: int|
                0 <= a < self.chunks@.len() && 0 <= b < self.chunks@.len() && a != b
                implies #[trigger] self.chunks@[a].chunk_coord != #[trigger] self.chunks@[b].chunk_coord by {
                if a == n {
                    assert(before.chunks@[b].chunk_coord == self.chunks@[b].chunk_coord);
                } else if b == n {
                    assert(before.chunks@[a].chunk_coord == self.chunks@[a].chunk_coord);
                } else {
                    assert(before.chunks@[a].chunk_coord == self.chunks@[a].chunk_coord);
                    assert(before.chunks@[b].chunk_coord == self.chunks@[b].chunk_coord);
                }
            }
            assert forall|k: int| 0 <= k < self.chunks@.len() implies (#[trigger] self.chunks@[k]).wf() by {
                if k < n {
                    assert(self.chunks@[k] == before.chunks@[k]);
                }
            }
            assert forall|c: CellCoord| #[trigger] self.spec_get(c) == if c == cell_coord {
                cell
            } else {
                before.spec_get(c)
            } by {
                lemma_local_index_range(c);
                let cc = c.spec_chunk();
                if cc == chunk_coord {
                    assert(self.spec_has_chunk(cc));
                    let j = self.spec_chunk_index(cc);
                    assert(j == n);
                    if c != cell_coord {
                        if spec_local_index(c.spec_local()) == l {
                            lemma_same_chunk_same_local(c, cell_coord);
                        }
                    }
                } else {
                    if self.spec_has_chunk(cc) {
                        let j = self.spec_chunk_index(cc);
                        assert(j != n);
                        assert(before.chunks@[j].chunk_coord == cc);
                        assert(before.spec_has_chunk(cc));
                        let jb = before.spec_chunk_index(cc);
                        assert(self.chunks@[jb].chunk_coord == cc);
                    } else {
                        if before.spec_has_chunk(cc) {
                            let jb = before.spec_chunk_index(cc);
                            assert(self.chunks@[jb].chunk_coord == cc);
                        }
                    }
                }
            }
        }
    }
}

} // verus!

verus! {

impl Buffer {
    /// Puts `chunk` in the buffer, in place of the chunk with the same chunk coord if there is one.
    pub(crate) fn insert_chunk(&mut self, chunk: BufferChunk)
        requires
            old(self).wf(),
            chunk.wf(),
        ensures
            final(self).wf(),
            forall|c: CellCoord| #[trigger] final(self).spec_get(c) == if c.spec_chunk() == chunk.chunk_coord {
                chunk.spec_cell(spec_local_index(c.spec_local()))
            } else {
                old(self).spec_get(c)
            },
            forall|cc2: ChunkCoord| #[trigger] final(self).spec_has_chunk(cc2) <==> (cc2 == chunk.chunk_coord || old(self).spec_has_chunk(cc2)),
    {
        let ghost before = *self;
        let cc = chunk.chunk_coord;
        let mut i: usize = 0;
        while i < self.chunks.len()
            invariant
                *self == before,
                before.wf(),
                i <= self.chunks@.len(),
                forall|k: int| 0 <= k < i ==> #[trigger] self.chunks@[k].chunk_coord != cc,
            ensures
                *self == before,
                i <= self.chunks@.len(),
                i < self.chunks@.len() ==> self.chunks@[i as int].chunk_coord == cc,
                forall|k: int| 0 <= k < i ==> #[trigger] self.chunks@[k].chunk_coord != cc,
            decreases self.chunks@.len() - i,
        {
            if self.chunks[i].chunk_coord == cc {
                break;
            }
            i = i + 1;
        }
        let ghost n = before.chunks@.len() as int;
        let ghost ii = i as int;
        if i < self.chunks.len() {
            self.chunks.set(i, chunk);
        } else {
            self.chunks.push(chunk);
        }
        proof {
            assert(self.chunks@[ii] == chunk);
            assert forall|k: int| 0 <= k < self.chunks@.len() && k != ii implies #[trigger] self.chunks@[k] == before.chunks@[k] by {}
            assert forall|k: int| 0 <= k < self.chunks@.len() implies (#[trigger] self.chunks@[k]).wf() by {
                if k != ii {
                    assert(self.chunks@[k] == before.chunks@[k]);
                }
            }
            assert forall|a: int, b: int|
                0 <= a < self.chunks@.len() && 0 <= b < self.chunks@.len() && a != b
                implies #[trigger] self.chunks@[a].chunk_coord != #[trigger] self.chunks@[b].chunk_coord by {
                if a == ii {
                    assert(self.chunks@[b] == before.chunks@[b]);
                    if ii < n {
                        assert(before.chunks@[ii].chunk_coord == cc);
                    }
                } else if b == ii {
                    assert(self.chunks@[a] == before.chunks@[a]);
                    if ii < n {
                        assert(before.chunks@[ii].chunk_coord == cc);
                    }
                } else {
                    assert(self.chunks@[a] == before.chunks@[a]);
                    assert(self.chunks@[b] == before.chunks@[b]);
                }
            }
            assert forall|cc2: ChunkCoord| #[trigger] self.spec_has_chunk(cc2) <==> (cc2 == cc || before.spec_has_chunk(cc2)) by {
                if self.spec_has_chunk(cc2) {
                    let j = choose|j: int| 0 <= j < self.chunks@.len() && #[trigger] self.chunks@[j].chunk_coord == cc2;
                    if j != ii {
                        assert(before.chunks@[j].chunk_coord == cc2);
                    }
                }
                if cc2 == cc {
                    assert(self.chunks@[ii].chunk_coord == cc2);
                } else if before.spec_has_chunk(cc2) {
                    let jb = choose|j: int| 0 <= j < before.chunks@.len() && #[trigger] before.chunks@[j].chunk_coord == cc2;
                    assert(jb != ii || ii >= n);
                    assert(self.chunks@[jb].chunk_coord == cc2);
                }
            }
            assert forall|c: CellCoord| #[trigger] self.spec_get(c) == if c.spec_chunk() == cc {
                chunk.spec_cell(spec_local_index(c.spec_local()))
            } else {
                before.spec_get(c)
            } by {
                let ccc = c.spec_chunk();
                if ccc == cc {
                    assert(self.spec_has_chunk(ccc));
                    assert(self.spec_chunk_index(ccc) == ii);
                } else {
                    if self.spec_has_chunk(ccc) {
                        let j = self.spec_chunk_index(ccc);
                        assert(j != ii);
                        assert(before.chunks@[j].chunk_coord == ccc);
                        assert(before.spec_has_chunk(ccc));
                        let jb = before.spec_chunk_index(ccc);
                        assert(jb != ii || ii >= n);
                        assert(self.chunks@[jb].chunk_coord == ccc);
                    } else {
                        if before.spec_has_chunk(ccc) {
                            let jb = before.spec_chunk_index(ccc);
                            if jb == ii {
                                assert(before.chunks@[ii].chunk_coord == cc);
                            }
                            assert(self.chunks@[jb].chunk_coord == ccc);
                        }
                    }
                }
            }
        }
    }
}

} // verus!

verus! {

impl Clone for BufferChunk {
    /// A copy of the chunk.
    fn clone(&self) -> (r: BufferChunk)
        ensures
            r.chunk_coord == self.chunk_coord,
            r.cell_count == self.cell_count,
            r.cells@ == self.cells@,
    {
        let mut cells: Vec<u8> = Vec::new();
        let mut i: usize = 0;
        while i < self.cells.len()
            invariant
                i <= self.cells@.len(),
                cells@ =~= self.cells@.take(i as int),
            decreases self.cells@.len() - i,
        {
            cells.push(self.cells[i]);
            i = i + 1;
        }
        BufferChunk { chunk_coord: self.chunk_coord, cell_count: self.cell_count, cells }
    }
}

impl Clone for Buffer {
    /// A copy of the buffer: the same chunks, in the same order.
    fn clone(&self) -> (r: Buffer)
        ensures
            r.chunks@.len() == self.chunks@.len(),
            forall|i: int| 0 <= i < self.chunks@.len() ==> {
                &&& (#[trigger] r.chunks@[i]).chunk_coord == self.chunks@[i].chunk_coord
                &&& r.chunks@[i].cell_count == self.chunks@[i].cell_count
                &&& r.chunks@[i].cells@ == self.chunks@[i].cells@
            },
            self.wf() ==> r.wf(),
            self.wf() ==> forall|c: CellCoord| #[trigger] r.spec_get(c) == self.spec_get(c),
    {
        let mut chunks: Vec<BufferChunk> = Vec::new();
        let mut i: usize = 0;
        while i < self.chunks.len()
            invariant
                i <= self.chunks@.len(),
                chunks@.len() == i,
                forall|k: int| 0 <= k < i ==> {
                    &&& (#[trigger] chunks@[k]).chunk_coord == self.chunks@[k].chunk_coord
                    &&& chunks@[k].cell_count == self.chunks@[k].cell_count
                    &&& chunks@[k].cells@ == self.chunks@[k].cells@
                },
            decreases self.chunks@.len() - i,
        {
            chunks.push(self.chunks[i].clone());
            i = i + 1;
        }
        let r = Buffer { chunks };
        proof {
            if self.wf() {
                assert forall|k: int| 0 <= k < r.chunks@.len() implies (#[trigger] r.chunks@[k]).wf() by {
                    assert(self.chunks@[k].wf());
                }
                assert forall|c: CellCoord| #[trigger] r.spec_get(c) == self.spec_get(c) by {
                    let cc = c.spec_chunk();
                    if spec_has_chunk_in(self.chunks@, cc) {
                        let j = spec_chunk_index_in(self.chunks@, cc);
                        assert(r.chunks@[j].chunk_coord == cc);
                        let jr = spec_chunk_index_in(r.chunks@, cc);
                        assert(self.chunks@[jr].chunk_coord == cc);
                    } else if spec_has_chunk_in(r.chunks@, cc) {
                        let jr = spec_chunk_index_in(r.chunks@, cc);
                        assert(self.chunks@[jr].chunk_coord == cc);
                    }
                }
            }
        }
        r
    }
}


/// The cell at (`x`, `y`).
pub open spec fn spec_cell_at_xy(x: int, y: int) -> CellCoord {
    CellCoord(IVec2 { x: x as i32, y: y as i32 })
}

/// What a copy of the cells of `selection` moved by minus `anchor` holds at `c`, once the rows
/// below `y` and the cells of row `y` left of `x` are copied.
pub open spec fn spec_copied(src: Buffer, selection: Selection, anchor: CellCoord, c: CellCoord, x: int, y: int) -> UPC {
    let px = c.0.x + anchor.0.x;
    let py = c.0.y + anchor.0.y;
    if selection.spec_contains(px, py) && (py < y || (py == y && px < x)) {
        src.spec_get(spec_cell_at_xy(px, py))
    } else {
        UPC::spec_default()
    }
}

impl Buffer {
    /// A new buffer holding the cells of `selection`, each moved by minus `anchor` (so that the
    /// cell at `anchor` lands on the origin).
    pub fn clone_selection(&self, selection: &Selection, anchor: CellCoord) -> (r: Buffer)
        requires
            self.wf(),
            selection.lower_left.0.x < selection.upper_right.0.x && selection.lower_left.0.y < selection.upper_right.0.y ==> {
                &&& i32::MIN <= selection.lower_left.0.x - anchor.0.x
                &&& selection.upper_right.0.x - 1 - anchor.0.x <= i32::MAX
                &&& i32::MIN <= selection.lower_left.0.y - anchor.0.y
                &&& selection.upper_right.0.y - 1 - anchor.0.y <= i32::MAX
            },
        ensures
            r.wf(),
            forall|c: CellCoord| #[trigger] r.spec_get(c) == if selection.spec_contains(c.0.x + anchor.0.x, c.0.y + anchor.0.y) {
                self.spec_get(spec_cell_at_xy(c.0.x + anchor.0.x, c.0.y + anchor.0.y))
            } else {
                UPC::spec_default()
            },
    {
        let mut buffer = Buffer::new();
        let ll = selection.lower_left.0;
        let ur = selection.upper_right.0;
        let mut y = ll.y;
        while y < ur.y
            invariant
                self.wf(),
                buffer.wf(),
                ll == selection.lower_left.0,
                ur == selection.upper_right.0,
                ll.y <= y,
                y <= ur.y || y == ll.y,
                ll.x < ur.x && ll.y < ur.y ==> {
                    &&& i32::MIN <= ll.x - anchor.0.x
                    &&& ur.x - 1 - anchor.0.x <= i32::MAX
                    &&& i32::MIN <= ll.y - anchor.0.y
                    &&& ur.y - 1 - anchor.0.y <= i32::MAX
                },
                forall|c: CellCoord| #[trigger] buffer.spec_get(c) == spec_copied(*self, *selection, anchor, c, ll.x as int, y as int),
            decreases ur.y - y,
        {
            let mut x = ll.x;
            while x < ur.x
                invariant
                    self.wf(),
                    buffer.wf(),
                    ll == selection.lower_left.0,
                    ur == selection.upper_right.0,
                    ll.y <= y < ur.y,
                    ll.x <= x,
                    x <= ur.x || x == ll.x,
                    ll.x < ur.x ==> {
                        &&& i32::MIN <= ll.x - anchor.0.x
                        &&& ur.x - 1 - anchor.0.x <= i32::MAX
                        &&& i32::MIN <= ll.y - anchor.0.y
                        &&& ur.y - 1 - anchor.0.y <= i32::MAX
                    },
                    forall|c: CellCoord| #[trigger] buffer.spec_get(c) == spec_copied(*self, *selection, anchor, c, x as int, y as int),
                decreases ur.x - x,
            {
                let from = CellCoord(IVec2 { x, y });
                let to = CellCoord(IVec2 { x: x - anchor.0.x, y: y - anchor.0.y });
                let cell = self.get_cell(from);
                let ghost before = buffer;
                buffer.set_cell(to, cell);
                proof {
                    assert forall|c: CellCoord| #[trigger] buffer.spec_get(c) == spec_copied(*self, *selection, anchor, c, x + 1, y as int) by {
                        if c == to {
                            assert(spec_cell_at_xy(c.0.x + anchor.0.x, c.0.y + anchor.0.y) == from);
                        } else {
                            assert(before.spec_get(c) == spec_copied(*self, *selection, anchor, c, x as int, y as int));
                            assert(c.0.x + anchor.0.x != x || c.0.y + anchor.0.y != y);
                        }
                    }
                }
                x = x + 1;
            }
            proof {
                assert forall|c: CellCoord| #[trigger] buffer.spec_get(c) == spec_copied(*self, *selection, anchor, c, ll.x as int, y + 1) by {
                    assert(buffer.spec_get(c) == spec_copied(*self, *selection, anchor, c, x as int, y as int));
                }
            }
            y = y + 1;
        }
        proof {
            assert forall|c: CellCoord| #[trigger] buffer.spec_get(c) == (if selection.spec_contains(c.0.x + anchor.0.x, c.0.y + anchor.0.y) {
                self.spec_get(spec_cell_at_xy(c.0.x + anchor.0.x, c.0.y + anchor.0.y))
            } else {
                UPC::spec_default()
            }) by {
                assert(buffer.spec_get(c) == spec_copied(*self, *selection, anchor, c, ll.x as int, y as int));
            }
        }
        buffer
    }
}

} // verus!
