use vstd::prelude::*;

use crate::coords::{CellCoord, ChunkCoord, IVec2, LocalCoord, CHUNK_CELL_COUNT};
use crate::substrate::buffer::{spec_chunk_index_in, spec_has_chunk_in, spec_local_index, Buffer, BufferChunk, CHUNK_BYTE_LEN};
use crate::upc::{UPC, UPC_BYTE_LEN};

verus! {

/// Errors of the chunk codecs.
#[derive(Debug, PartialEq, Eq)]
pub enum CodecError {
    /// A cell index that lies outside of its chunk: the chunk's coord and the cell's byte index.
    IndexOutOfBounds { chunk_coord: ChunkCoord, byte_idx: usize },
    /// More data than a chunk holds.
    BufferOverrun(String),
}

/// One run of a single-axis run length coding: `length` repetitions of `data`.
#[derive(Clone, Copy, Debug, PartialEq, Eq, Structural)]
pub struct Run {
    pub length: u32,
    pub data: u8,
}

/// The bytes a sequence of runs stands for, run after run.
pub open spec fn spec_expand(runs: Seq<Run>) -> Seq<u8>
    decreases runs.len(),
{
    if runs.len() == 0 {
        Seq::empty()
    } else {
        spec_expand(runs.drop_last()) + Seq::new(runs.last().length as nat, |j: int| runs.last().data)
    }
}

/// The total length of a sequence of runs.
pub open spec fn spec_total(runs: Seq<Run>) -> int
    decreases runs.len(),
{
    if runs.len() == 0 {
        0
    } else {
        spec_total(runs.drop_last()) + runs.last().length
    }
}

/// The chunk a sequence of runs decodes to: the expanded runs followed by zeros.
pub open spec fn spec_decoded(runs: Seq<Run>) -> Seq<u8> {
    Seq::new(CHUNK_CELL_COUNT as nat, |k: int| if k < spec_expand(runs).len() { spec_expand(runs)[k] } else { 0u8 })
}

/// `runs` is the run length coding of the first `CHUNK_CELL_COUNT` bytes of `arr`: every run is
/// non-empty, neighbouring runs hold different bytes, the last run holds a non-zero byte, and the
/// runs expand to a prefix of those bytes after which only zeros follow.
pub open spec fn spec_is_encoding(runs: Seq<Run>, arr: Seq<u8>) -> bool {
    let e = spec_expand(runs);
    &&& arr.len() >= CHUNK_CELL_COUNT
    &&& forall|k: int| 0 <= k < runs.len() ==> #[trigger] runs[k].length > 0
    &&& forall|k: int| 0 <= k < runs.len() - 1 ==> #[trigger] runs[k].data != runs[k + 1].data
    &&& runs.len() > 0 ==> runs.last().data != 0
    &&& e.len() <= CHUNK_CELL_COUNT
    &&& forall|k: int| 0 <= k < e.len() ==> #[trigger] e[k] == arr[k]
    &&& forall|k: int| e.len() <= k < CHUNK_CELL_COUNT ==> #[trigger] arr[k] == 0
}

proof fn lemma_expand_len(runs: Seq<Run>)
    ensures
        spec_expand(runs).len() == spec_total(runs),
        spec_total(runs) >= 0,
    decreases runs.len(),
{
    if runs.len() > 0 {
        lemma_expand_len(runs.drop_last());
    }
}

impl Run {
    /// Decodes the runs of one chunk layer. Fails with `BufferOverrun` when the runs are longer
    /// than a chunk; otherwise the runs expanded and padded with zeros. The run lengths must sum
    /// to a `u32`.
    pub fn decode(runs: &Vec<Run>) -> (r: Result<[u8; CHUNK_CELL_COUNT], CodecError>)
        requires
            spec_total(runs@) <= u32::MAX,
        ensures
            spec_total(runs@) > CHUNK_CELL_COUNT <==> r is Err,
            r matches Err(e) ==> e is BufferOverrun,
            r matches Ok(arr) ==> arr@ == spec_decoded(runs@),
    {
        // Check overflow
        let mut sum: u32 = 0;
        let mut k: usize = 0;
        while k < runs.len()
            invariant
                k <= runs@.len(),
                spec_total(runs@) <= u32::MAX,
                sum == spec_total(runs@.take(k as int)),
            decreases runs@.len() - k,
        {
            proof {
                assert(runs@.take(k + 1).drop_last() =~= runs@.take(k as int));
                lemma_total_prefix(runs@, k + 1);
            }
            sum = sum + runs[k].length;
            k = k + 1;
        }
        proof {
            assert(runs@.take(runs@.len() as int) =~= runs@);
        }
        if sum > CHUNK_CELL_COUNT as u32 {
            return Err(CodecError::BufferOverrun("run is too long".to_owned()));
        }

        let mut arr = [0u8; CHUNK_CELL_COUNT];
        let mut i: u32 = 0;
        let mut r: usize = 0;
        while r < runs.len()
            invariant
                r <= runs@.len(),
                spec_total(runs@) <= CHUNK_CELL_COUNT,
                i == spec_total(runs@.take(r as int)),
                arr@.len() == CHUNK_CELL_COUNT,
                forall|k: int| 0 <= k < i ==> arr@[k] == #[trigger] spec_expand(runs@.take(r as int))[k],
                forall|k: int| i <= k < CHUNK_CELL_COUNT ==> arr@[k] == 0,
            decreases runs@.len() - r,
        {
            proof {
                lemma_total_prefix(runs@, r + 1);
                assert(runs@.take(r + 1).drop_last() =~= runs@.take(r as int));
                lemma_expand_len(runs@.take(r as int));
                lemma_expand_len(runs@.take(r + 1));
            }
            let run = runs[r];
            let end = i + run.length;
            let mut j = i;
            while j < end
                invariant
                    i <= j <= end,
                    end == i + run.length,
                    end <= CHUNK_CELL_COUNT,
                    arr@.len() == CHUNK_CELL_COUNT,
                    forall|k: int| 0 <= k < i ==> arr@[k] == #[trigger] spec_expand(runs@.take(r as int))[k],
                    forall|k: int| i <= k < j ==> arr@[k] == run.data,
                    forall|k: int| j <= k < CHUNK_CELL_COUNT ==> arr@[k] == 0,
                decreases end - j,
            {
                if run.data != 0 {
                    arr[j as usize] = run.data;
                }
                j = j + 1;
            }
            i = end;
            r = r + 1;
            proof {
                let e0 = spec_expand(runs@.take(r - 1));
                let e1 = spec_expand(runs@.take(r as int));
                assert(runs@.take(r as int).last() == run);
                assert forall|k: int| 0 <= k < i implies arr@[k] == #[trigger] e1[k] by {
                    if k < e0.len() {
                        assert(e1[k] == e0[k]);
                    } else {
                        assert(e1[k] == run.data);
                    }
                }
            }
        }
        proof {
            assert(runs@.take(runs@.len() as int) =~= runs@);
            lemma_expand_len(runs@);
            assert(arr@ =~= spec_decoded(runs@));
        }
        Ok(arr)
    }
}

proof fn lemma_total_prefix(runs: Seq<Run>, k: int)
    requires
        0 <= k <= runs.len(),
    ensures
        spec_total(runs.take(k)) <= spec_total(runs),
        0 <= spec_total(runs.take(k)),
    decreases runs.len() - k,
{
    lemma_expand_len(runs.take(k));
    if k < runs.len() {
        lemma_total_prefix(runs, k + 1);
        assert(runs.take(k + 1).drop_last() =~= runs.take(k));
    } else {
        assert(runs.take(k) =~= runs);
    }
}

} // verus!

verus! {

pub open spec fn spec_repeat(data: u8, n: nat) -> Seq<u8> {
    Seq::new(n, |j: int| data)
}

proof fn lemma_expand_push(runs: Seq<Run>, run: Run)
    ensures
        spec_expand(runs.push(run)) == spec_expand(runs) + spec_repeat(run.data, run.length as nat),
{
    assert(runs.push(run).drop_last() =~= runs);
}

impl Run {
    /// Run length codes the first `CHUNK_CELL_COUNT` bytes of `arr` (see `spec_is_encoding`);
    /// trailing zeros are left out. `arr` must hold at least `CHUNK_CELL_COUNT` bytes.
    pub fn encode(arr: Vec<u8>) -> (runs: Vec<Run>)
        requires
            arr@.len() >= CHUNK_CELL_COUNT,
        ensures
            spec_is_encoding(runs@, arr@),
    {
        let mut runs: Vec<Run> = Vec::new();
        let mut run = Run { data: arr[0], length: 0 };

        let mut i: usize = 0;
        while i < CHUNK_CELL_COUNT
            invariant
                arr@.len() >= CHUNK_CELL_COUNT,
                i <= CHUNK_CELL_COUNT,
                run.length <= i,
                i > 0 ==> run.length >= 1,
                i == 0 ==> run.data == arr@[0],
                forall|k: int| 0 <= k < runs@.len() ==> #[trigger] runs@[k].length > 0,
                forall|k: int| 0 <= k < runs@.len() - 1 ==> #[trigger] runs@[k].data != runs@[k + 1].data,
                runs@.len() > 0 ==> runs@.last().data != run.data,
                spec_expand(runs@) + spec_repeat(run.data, run.length as nat) =~= arr@.take(i as int),
            decreases CHUNK_CELL_COUNT - i,
        {
            if run.data == arr[i] {
                run.length = run.length + 1;
                proof {
                    assert(arr@.take(i + 1) =~= arr@.take(i as int).push(arr@[i as int]));
                }
            } else {
                let ghost old_runs = runs@;
                let ghost old_run = run;
                runs.push(run);
                run = Run { data: arr[i], length: 1 };
                proof {
                    lemma_expand_push(old_runs, old_run);
                    assert(arr@.take(i + 1) =~= arr@.take(i as int).push(arr@[i as int]));
                    assert(runs@.last() == old_run);
                    assert forall|k: int| 0 <= k < runs@.len() - 1 implies #[trigger] runs@[k].data != runs@[k + 1].data by {
                        if k < old_runs.len() - 1 {
                            assert(runs@[k] == old_runs[k]);
                            assert(runs@[k + 1] == old_runs[k + 1]);
                        }
                    }
                }
            }
            i = i + 1;
        }

        // The last run can be elided if it's empty
        if run.data != 0 {
            let ghost old_runs = runs@;
            runs.push(run);
            proof {
                lemma_expand_push(old_runs, run);
                assert forall|k: int| 0 <= k < runs@.len() - 1 implies #[trigger] runs@[k].data != runs@[k + 1].data by {
                    if k < old_runs.len() - 1 {
                        assert(runs@[k] == old_runs[k]);
                        assert(runs@[k + 1] == old_runs[k + 1]);
                    }
                }
            }
        }
        proof {
            let e = spec_expand(runs@);
            if run.data == 0 {
                assert forall|k: int| e.len() <= k < CHUNK_CELL_COUNT implies #[trigger] arr@[k] == 0 by {
                    assert(arr@.take(CHUNK_CELL_COUNT as int)[k] == (e + spec_repeat(run.data, run.length as nat))[k]);
                }
                assert forall|k: int| 0 <= k < e.len() implies #[trigger] e[k] == arr@[k] by {
                    assert(arr@.take(CHUNK_CELL_COUNT as int)[k] == (e + spec_repeat(run.data, run.length as nat))[k]);
                }
            } else {
                assert forall|k: int| 0 <= k < e.len() implies #[trigger] e[k] == arr@[k] by {
                    assert(arr@.take(CHUNK_CELL_COUNT as int)[k] == e[k]);
                }
            }
        }
        runs
    }
}

/// Decoding the run length coding of a chunk layer gives back exactly its first
/// `CHUNK_CELL_COUNT` bytes.
pub proof fn lemma_decode_encode(runs: Seq<Run>, arr: Seq<u8>)
    requires
        spec_is_encoding(runs, arr),
    ensures
        spec_total(runs) <= CHUNK_CELL_COUNT,
        spec_decoded(runs) == arr.take(CHUNK_CELL_COUNT as int),
{
    lemma_expand_len(runs);
    assert(spec_decoded(runs) =~= arr.take(CHUNK_CELL_COUNT as int));
}

} // verus!

verus! {

// ==== V1 - Individually addressed cells ==========================================================

/// A buffer in format version 1: the chunks that hold a non-empty cell, each with its non-empty
/// cells addressed individually.
#[derive(Debug, Clone)]
pub struct EncodeV1 {
    pub chunks: Vec<ChunksV1>,
}

/// One chunk of format version 1.
#[derive(Debug, Clone)]
pub struct ChunksV1 {
    pub chunk_x: i32,
    pub chunk_y: i32,
    pub cells: Vec<CellV1>,
}

/// One cell of format version 1: its index in the chunk and the first two bytes of its UPC (the
/// rest of the UPC is dropped).
#[derive(Debug, Clone, Copy, PartialEq, Eq, Structural)]
pub struct CellV1 {
    pub upc_idx: u16,
    pub flags_1: u8,
    pub flags_2: u8,
}

/// The V1 cells of the first `n` cells of the UPC bytes `cells`: one entry for each cell whose
/// first two bytes are not both zero, in index order.
pub open spec fn spec_v1_cells(cells: Seq<u8>, n: nat) -> Seq<CellV1>
    decreases n,
{
    if n == 0 {
        Seq::empty()
    } else {
        let prev = spec_v1_cells(cells, (n - 1) as nat);
        let i = n - 1;
        if cells[4 * i] == 0 && cells[4 * i + 1] == 0 {
            prev
        } else {
            prev.push(CellV1 { upc_idx: i as u16, flags_1: cells[4 * i], flags_2: cells[4 * i + 1] })
        }
    }
}

/// The number of cells of a byte vector of length `len` whose first two bytes exist.
pub open spec fn spec_v1_cell_count(len: int) -> nat {
    ((len + 2) / 4) as nat
}

/// A V1 chunk as plain values: chunk x, chunk y and the cells.
pub open spec fn spec_chunk_v1_view(c: ChunksV1) -> (i32, i32, Seq<CellV1>) {
    (c.chunk_x, c.chunk_y, c.cells@)
}

/// The V1 chunks as plain values.
pub open spec fn spec_chunks_v1_view(chunks: Seq<ChunksV1>) -> Seq<(i32, i32, Seq<CellV1>)> {
    chunks.map_values(|c: ChunksV1| spec_chunk_v1_view(c))
}

/// The V1 encoding of a list of buffer chunks: for each chunk in order that has a cell with a
/// non-zero first or second byte, its chunk coord and its V1 cells.
pub open spec fn spec_v1_encode(chunks: Seq<BufferChunk>) -> Seq<(i32, i32, Seq<CellV1>)>
    decreases chunks.len(),
{
    if chunks.len() == 0 {
        Seq::empty()
    } else {
        let prev = spec_v1_encode(chunks.drop_last());
        let c = chunks.last();
        let cells = spec_v1_cells(c.cells@, spec_v1_cell_count(c.cells@.len() as int));
        if cells.len() > 0 {
            prev.push((c.chunk_coord.0.x, c.chunk_coord.0.y, cells))
        } else {
            prev
        }
    }
}

/// The UPC that decoding the V1 cells gives cell index `l`: the last entry for `l`, with zero
/// third and fourth bytes, or the empty cell.
pub open spec fn spec_v1_cell(cells: Seq<CellV1>, l: int) -> UPC
    decreases cells.len(),
{
    if cells.len() == 0 {
        UPC::spec_default()
    } else if cells.last().upc_idx == l {
        UPC([cells.last().flags_1, cells.last().flags_2, 0u8, 0u8])
    } else {
        spec_v1_cell(cells.drop_last(), l)
    }
}

/// The UPC that decoding the V1 chunks gives cell `c`: from the last chunk with its chunk coord,
/// or the empty cell.
pub open spec fn spec_v1_get(chunks: Seq<(i32, i32, Seq<CellV1>)>, c: CellCoord) -> UPC
    decreases chunks.len(),
{
    if chunks.len() == 0 {
        UPC::spec_default()
    } else if chunks.last().0 == c.spec_chunk().0.x && chunks.last().1 == c.spec_chunk().0.y {
        spec_v1_cell(chunks.last().2, spec_local_index(c.spec_local()))
    } else {
        spec_v1_get(chunks.drop_last(), c)
    }
}

/// Every cell index of the V1 chunks lies within a chunk.
pub open spec fn spec_v1_in_bounds(chunks: Seq<(i32, i32, Seq<CellV1>)>) -> bool {
    forall|k: int, j: int|
        0 <= k < chunks.len() && 0 <= j < chunks[k].2.len() ==> (#[trigger] chunks[k].2[j]).upc_idx < CHUNK_CELL_COUNT
}

/// The `j`-th cell of `cells` is the first whose index lies outside a chunk.
pub open spec fn spec_v1_first_out_of_bounds(cells: Seq<CellV1>, j: int) -> bool {
    &&& 0 <= j < cells.len()
    &&& cells[j].upc_idx >= CHUNK_CELL_COUNT
    &&& forall|m: int| 0 <= m < j ==> (#[trigger] cells[m]).upc_idx < CHUNK_CELL_COUNT
}

/// The error for the first out of bounds cell `j` of the chunk at (`x`, `y`).
pub open spec fn spec_v1_index_error(x: i32, y: i32, cells: Seq<CellV1>, j: int) -> CodecError {
    CodecError::IndexOutOfBounds { chunk_coord: ChunkCoord(IVec2 { x, y }), byte_idx: (cells[j].upc_idx * 4) as usize }
}

/// The V1 cells of a chunk's UPC bytes (see `spec_v1_cells`).
fn encode_v1_cells(cells: &Vec<u8>) -> (r: Vec<CellV1>)
    ensures
        r@ == spec_v1_cells(cells@, spec_v1_cell_count(cells@.len() as int)),
{
    let len = cells.len();
    let n: usize = if len % 4 >= 2 { len / 4 + 1 } else { len / 4 };
    assert(n == spec_v1_cell_count(len as int)) by (nonlinear_arith)
        requires
            n == (if len % 4 >= 2 { len / 4 + 1 } else { len / 4 + 0 }),
    ;
    let mut out: Vec<CellV1> = Vec::new();
    let mut k: usize = 0;
    while k < n
        invariant
            len == cells@.len(),
            n == spec_v1_cell_count(len as int),
            k <= n,
            out@ == spec_v1_cells(cells@, k as nat),
        decreases n - k,
    {
        assert(4 * k + 1 < len) by (nonlinear_arith)
            requires
                k < n,
                n == (len + 2) / 4,
        ;
        let i = k * UPC_BYTE_LEN;
        // Skip empty cells.
        let r = cells[i];
        let g = cells[i + 1];
        if !(r == 0 && g == 0) {
            // Only the first two bytes of the UPC are kept.
            out.push(CellV1 { upc_idx: k as u16, flags_1: r, flags_2: g });
        }
        k = k + 1;
    }
    out
}

impl<'a> vstd::std_specs::convert::FromSpecImpl<&'a Buffer> for EncodeV1 {
    open spec fn obeys_from_spec() -> bool {
        false
    }

    open spec fn from_spec(buffer: &'a Buffer) -> EncodeV1 {
        arbitrary()
    }
}

impl<'a> From<&'a Buffer> for EncodeV1 {
    /// Encodes the chunks of the buffer that hold a cell whose first two bytes are not both zero
    /// (see `spec_v1_encode`).
    fn from(buffer: &'a Buffer) -> (r: EncodeV1)
        ensures
            spec_chunks_v1_view(r.chunks@) == spec_v1_encode(buffer.chunks@),
    {
        let mut chunks: Vec<ChunksV1> = Vec::new();
        let mut k: usize = 0;
        while k < buffer.chunks.len()
            invariant
                k <= buffer.chunks@.len(),
                spec_chunks_v1_view(chunks@) == spec_v1_encode(buffer.chunks@.take(k as int)),
            decreases buffer.chunks@.len() - k,
        {
            assert(buffer.chunks@.take(k + 1).drop_last() =~= buffer.chunks@.take(k as int));
            let chunk = &buffer.chunks[k];
            let cells = encode_v1_cells(&chunk.cells);
            if cells.len() > 0 {
                let ghost before = chunks@;
                chunks.push(ChunksV1 { chunk_x: chunk.chunk_coord.0.x, chunk_y: chunk.chunk_coord.0.y, cells });
                assert(spec_chunks_v1_view(chunks@) =~= spec_chunks_v1_view(before).push(
                    (chunk.chunk_coord.0.x, chunk.chunk_coord.0.y, cells@),
                ));
            }
            k = k + 1;
        }
        assert(buffer.chunks@.take(buffer.chunks@.len() as int) =~= buffer.chunks@);
        EncodeV1 { chunks }
    }
}

/// Decodes one V1 chunk into a buffer chunk; fails on the first cell index outside the chunk.
fn decode_v1_chunk(chunk: &ChunksV1) -> (r: Result<BufferChunk, CodecError>)
    ensures
        r is Ok <==> forall|j: int| 0 <= j < chunk.cells@.len() ==> (#[trigger] chunk.cells@[j]).upc_idx < CHUNK_CELL_COUNT,
        r matches Err(e) ==> exists|j: int| spec_v1_first_out_of_bounds(chunk.cells@, j)
            && e == spec_v1_index_error(chunk.chunk_x, chunk.chunk_y, chunk.cells@, j),
        r matches Ok(bc) ==> {
            &&& bc.wf()
            &&& bc.chunk_coord == ChunkCoord(IVec2 { x: chunk.chunk_x, y: chunk.chunk_y })
            &&& forall|l: int| 0 <= l < CHUNK_CELL_COUNT ==> #[trigger] bc.spec_cell(l) == spec_v1_cell(chunk.cells@, l)
        },
{
    let chunk_coord = ChunkCoord(IVec2 { x: chunk.chunk_x, y: chunk.chunk_y });
    let mut bc = BufferChunk::new(chunk_coord);
    let mut j: usize = 0;
    while j < chunk.cells.len()
        invariant
            j <= chunk.cells@.len(),
            bc.wf(),
            bc.chunk_coord == chunk_coord,
            chunk_coord == ChunkCoord(IVec2 { x: chunk.chunk_x, y: chunk.chunk_y }),
            forall|m: int| 0 <= m < j ==> (#[trigger] chunk.cells@[m]).upc_idx < CHUNK_CELL_COUNT,
            forall|l: int| 0 <= l < CHUNK_CELL_COUNT ==> #[trigger] bc.spec_cell(l) == spec_v1_cell(chunk.cells@.take(j as int), l),
        decreases chunk.cells@.len() - j,
    {
        let cell = chunk.cells[j];
        let byte_idx = (cell.upc_idx as usize) * UPC_BYTE_LEN;
        if byte_idx + 1 >= CHUNK_BYTE_LEN {
            assert(spec_v1_first_out_of_bounds(chunk.cells@, j as int));
            assert(cell == chunk.cells@[j as int]);
            assert(byte_idx == cell.upc_idx * 4);
            assert(((chunk.cells@[j as int].upc_idx * 4) as usize) == byte_idx);
            assert(chunk_coord == ChunkCoord(IVec2 { x: chunk.chunk_x, y: chunk.chunk_y }));
            assert(spec_v1_index_error(chunk.chunk_x, chunk.chunk_y, chunk.cells@, j as int)
                == CodecError::IndexOutOfBounds { chunk_coord, byte_idx });
            return Err(CodecError::IndexOutOfBounds { chunk_coord, byte_idx });
        }
        let local = LocalCoord::from_upc_idx(byte_idx);
        let ghost l = cell.upc_idx as int;
        assert(spec_local_index(local) == l) by (nonlinear_arith)
            requires
                local.0.y == (byte_idx / 4) / 128,
                local.0.x == (byte_idx / 4) % 128,
                byte_idx == l * 4,
                0 <= l < 16384,
        ;
        bc.set_cell(local, UPC([cell.flags_1, cell.flags_2, 0u8, 0u8]));
        proof {
            let t = chunk.cells@.take(j + 1);
            assert(t.drop_last() =~= chunk.cells@.take(j as int));
            assert(t.last() == cell);
        }
        j = j + 1;
    }
    assert(chunk.cells@.take(chunk.cells@.len() as int) =~= chunk.cells@);
    Ok(bc)
}

impl vstd::std_specs::convert::TryFromSpecImpl<EncodeV1> for Buffer {
    open spec fn obeys_try_from_spec() -> bool {
        false
    }

    open spec fn try_from_spec(data: EncodeV1) -> Result<Buffer, CodecError> {
        arbitrary()
    }
}

impl TryFrom<EncodeV1> for Buffer {
    type Error = CodecError;

    /// Decodes a V1 buffer. Fails with `IndexOutOfBounds` when a cell index lies outside its
    /// chunk; otherwise each cell is as `spec_v1_get` says (a later chunk replaces an earlier one
    /// with the same chunk coord).
    fn try_from(data: EncodeV1) -> (r: Result<Buffer, CodecError>)
        ensures
            r is Ok <==> spec_v1_in_bounds(spec_chunks_v1_view(data.chunks@)),
            r matches Err(e) ==> exists|k: int, j: int| 0 <= k < data.chunks@.len()
                && (forall|m: int, i: int| 0 <= m < k && 0 <= i < data.chunks@[m].cells@.len()
                    ==> (#[trigger] data.chunks@[m].cells@[i]).upc_idx < CHUNK_CELL_COUNT)
                && spec_v1_first_out_of_bounds(data.chunks@[k].cells@, j)
                && e == spec_v1_index_error(data.chunks@[k].chunk_x, data.chunks@[k].chunk_y, data.chunks@[k].cells@, j),
            r matches Ok(b) ==> b.wf() && forall|c: CellCoord| #[trigger] b.spec_get(c) == spec_v1_get(spec_chunks_v1_view(data.chunks@), c),
    {
        let ghost view = spec_chunks_v1_view(data.chunks@);
        let mut buffer = Buffer::new();
        let mut k: usize = 0;
        while k < data.chunks.len()
            invariant
                k <= data.chunks@.len(),
                view == spec_chunks_v1_view(data.chunks@),
                buffer.wf(),
                forall|c: CellCoord| #[trigger] buffer.spec_get(c) == spec_v1_get(view.take(k as int), c),
                forall|m: int, j: int| 0 <= m < k && 0 <= j < view[m].2.len() ==> (#[trigger] view[m].2[j]).upc_idx < CHUNK_CELL_COUNT,
            decreases data.chunks@.len() - k,
        {
            let chunk = &data.chunks[k];
            match decode_v1_chunk(chunk) {
                Err(e) => {
                    proof {
                        let j = choose|j: int| spec_v1_first_out_of_bounds(chunk.cells@, j)
                            && e == spec_v1_index_error(chunk.chunk_x, chunk.chunk_y, chunk.cells@, j);
                        assert(view[k as int].2[j] == chunk.cells@[j]);
                        assert forall|m: int, i: int| 0 <= m < k && 0 <= i < data.chunks@[m].cells@.len()
                            implies (#[trigger] data.chunks@[m].cells@[i]).upc_idx < CHUNK_CELL_COUNT by {
                            assert(view[m].2[i] == data.chunks@[m].cells@[i]);
                        }
                    }
                    return Err(e);
                },
                Ok(bc) => {
                    let ghost before = buffer;
                    buffer.insert_chunk(bc);
                    proof {
                        let t = view.take(k + 1);
                        assert(t.drop_last() =~= view.take(k as int));
                        assert(t.last() == spec_chunk_v1_view(*chunk));
                        assert forall|c: CellCoord| #[trigger] buffer.spec_get(c) == spec_v1_get(t, c) by {
                            crate::coords::lemma_chunk_local_decomposition(c);
                            if c.spec_chunk() == bc.chunk_coord {
                                assert(c.spec_chunk().0.x == chunk.chunk_x);
                            } else {
                                assert(before.spec_get(c) == spec_v1_get(view.take(k as int), c));
                                if c.spec_chunk().0.x == chunk.chunk_x && c.spec_chunk().0.y == chunk.chunk_y {
                                    assert(c.spec_chunk() == bc.chunk_coord);
                                }
                            }
                        }
                    }
                },
            }
            k = k + 1;
        }
        assert(view.take(data.chunks@.len() as int) =~= view);
        Ok(buffer)
    }
}

} // verus!

verus! {

/// In a list of chunks with distinct chunk coords, a cell is found in the last chunk when it has
/// the cell's chunk coord, and among the other chunks otherwise.
proof fn lemma_get_in_last(chunks: Seq<BufferChunk>, c: CellCoord)
    requires
        chunks.len() > 0,
        forall|i: int, j: int|
            0 <= i < chunks.len() && 0 <= j < chunks.len() && i != j ==> #[trigger] chunks[i].chunk_coord != #[trigger] chunks[j].chunk_coord,
    ensures
        crate::substrate::buffer::spec_get_in(chunks, c) == if chunks.last().chunk_coord == c.spec_chunk() {
            chunks.last().spec_cell(spec_local_index(c.spec_local()))
        } else {
            crate::substrate::buffer::spec_get_in(chunks.drop_last(), c)
        },
{
    let cc = c.spec_chunk();
    let n = chunks.len() - 1;
    let d = chunks.drop_last();
    if chunks.last().chunk_coord == cc {
        assert(chunks[n].chunk_coord == cc);
        assert(spec_has_chunk_in(chunks, cc));
        assert(spec_chunk_index_in(chunks, cc) == n);
    } else {
        if spec_has_chunk_in(chunks, cc) {
            let j = spec_chunk_index_in(chunks, cc);
            assert(j != n);
            assert(d[j] == chunks[j]);
            assert(spec_has_chunk_in(d, cc));
            let jd = spec_chunk_index_in(d, cc);
            assert(d[jd] == chunks[jd]);
        } else {
            if spec_has_chunk_in(d, cc) {
                let jd = spec_chunk_index_in(d, cc);
                assert(d[jd] == chunks[jd]);
            }
        }
    }
}

/// What decoding the V1 cells of the first `n` cells of `cells` gives each cell index.
proof fn lemma_v1_cells(cells: Seq<u8>, n: nat)
    requires
        4 * n <= cells.len(),
        n <= CHUNK_CELL_COUNT,
    ensures
        forall|j: int| 0 <= j < spec_v1_cells(cells, n).len() ==> (#[trigger] spec_v1_cells(cells, n)[j]).upc_idx < n,
        forall|l: int| #[trigger] spec_v1_cell(spec_v1_cells(cells, n), l) == if 0 <= l < n && !(cells[4 * l] == 0 && cells[4 * l + 1] == 0) {
            UPC([cells[4 * l], cells[4 * l + 1], 0u8, 0u8])
        } else {
            UPC::spec_default()
        },
    decreases n,
{
    if n > 0 {
        let m = (n - 1) as nat;
        lemma_v1_cells(cells, m);
        let prev = spec_v1_cells(cells, m);
        let i = n - 1;
        assert((i as u16) == i);
        if !(cells[4 * i] == 0 && cells[4 * i + 1] == 0) {
            let cur = spec_v1_cells(cells, n);
            assert(cur.drop_last() =~= prev);
            assert forall|j: int| 0 <= j < cur.len() implies (#[trigger] cur[j]).upc_idx < n by {
                if j < prev.len() {
                    assert(cur[j] == prev[j]);
                }
            }
            assert forall|l: int| #[trigger] spec_v1_cell(cur, l) == spec_v1_cell(cur, l) by {}
            assert(cur.last().upc_idx == i);
        }
        assert forall|l: int| #[trigger] spec_v1_cell(spec_v1_cells(cells, n), l) == if 0 <= l < n && !(cells[4 * l] == 0 && cells[4 * l + 1] == 0) {
            UPC([cells[4 * l], cells[4 * l + 1], 0u8, 0u8])
        } else {
            UPC::spec_default()
        } by {
            assert(spec_v1_cell(prev, l) == if 0 <= l < m && !(cells[4 * l] == 0 && cells[4 * l + 1] == 0) {
                UPC([cells[4 * l], cells[4 * l + 1], 0u8, 0u8])
            } else {
                UPC::spec_default()
            });
        }
    }
}

/// Decoding the V1 encoding of chunks with distinct chunk coords gives back the first two bytes
/// of each cell.
proof fn lemma_v1_chunks(chunks: Seq<BufferChunk>, c: CellCoord)
    requires
        forall|i: int| 0 <= i < chunks.len() ==> (#[trigger] chunks[i]).wf(),
        forall|i: int, j: int|
            0 <= i < chunks.len() && 0 <= j < chunks.len() && i != j ==> #[trigger] chunks[i].chunk_coord != #[trigger] chunks[j].chunk_coord,
    ensures
        spec_v1_in_bounds(spec_v1_encode(chunks)),
        spec_v1_get(spec_v1_encode(chunks), c) == spec_two_bytes(crate::substrate::buffer::spec_get_in(chunks, c)),
    decreases chunks.len(),
{
    assert(spec_two_bytes(UPC::spec_default()).0 =~= UPC::spec_default().0);
    if chunks.len() > 0 {
        let d = chunks.drop_last();
        let last = chunks.last();
        let n = chunks.len() - 1;
        lemma_v1_chunks(d, c);
        lemma_get_in_last(chunks, c);
        crate::coords::lemma_chunk_local_decomposition(c);
        let l = spec_local_index(c.spec_local());
        assert(0 <= l < CHUNK_CELL_COUNT);
        assert(spec_v1_cell_count(last.cells@.len() as int) == CHUNK_CELL_COUNT);
        lemma_v1_cells(last.cells@, CHUNK_CELL_COUNT as nat);
        let cells = spec_v1_cells(last.cells@, CHUNK_CELL_COUNT as nat);
        let prev = spec_v1_encode(d);
        assert(chunks[n] == last);
        let u = last.spec_cell(l);
        let expect = if !(last.cells@[4 * l] == 0 && last.cells@[4 * l + 1] == 0) {
            UPC([last.cells@[4 * l], last.cells@[4 * l + 1], 0u8, 0u8])
        } else {
            UPC::spec_default()
        };
        assert(expect.0 =~= spec_two_bytes(u).0);
        if cells.len() > 0 {
            let cur = spec_v1_encode(chunks);
            assert(cur == prev.push((last.chunk_coord.0.x, last.chunk_coord.0.y, cells)));
            assert forall|k: int, j: int| 0 <= k < cur.len() && 0 <= j < cur[k].2.len()
                implies (#[trigger] cur[k].2[j]).upc_idx < CHUNK_CELL_COUNT by {
                if k < prev.len() {
                    assert(cur[k] == prev[k]);
                }
            }
            assert(cur.drop_last() =~= prev);
        } else {
            if last.chunk_coord == c.spec_chunk() {
                if !(last.cells@[4 * l] == 0 && last.cells@[4 * l + 1] == 0) {
                    assert(spec_v1_cell(cells, l) == UPC::spec_default());
                }
                assert(!crate::substrate::buffer::spec_has_chunk_in(d, c.spec_chunk())) by {
                    if crate::substrate::buffer::spec_has_chunk_in(d, c.spec_chunk()) {
                        let j = crate::substrate::buffer::spec_chunk_index_in(d, c.spec_chunk());
                        assert(chunks[j].chunk_coord == chunks[n].chunk_coord);
                    }
                }
                lemma_v1_get_absent(prev, d, c);
            }
        }
    }
}

/// The V1 encoding of chunks none of which has the chunk coord of `c` decodes `c` to the empty
/// cell.
proof fn lemma_v1_get_absent(enc: Seq<(i32, i32, Seq<CellV1>)>, chunks: Seq<BufferChunk>, c: CellCoord)
    requires
        enc == spec_v1_encode(chunks),
        !crate::substrate::buffer::spec_has_chunk_in(chunks, c.spec_chunk()),
    ensures
        spec_v1_get(enc, c) == UPC::spec_default(),
    decreases chunks.len(),
{
    if chunks.len() > 0 {
        let d = chunks.drop_last();
        assert(!crate::substrate::buffer::spec_has_chunk_in(d, c.spec_chunk())) by {
            if crate::substrate::buffer::spec_has_chunk_in(d, c.spec_chunk()) {
                let j = crate::substrate::buffer::spec_chunk_index_in(d, c.spec_chunk());
                assert(chunks[j] == d[j]);
            }
        }
        assert(chunks[chunks.len() - 1] == chunks.last());
        if chunks.last().chunk_coord.0.x == c.spec_chunk().0.x && chunks.last().chunk_coord.0.y == c.spec_chunk().0.y {
            assert(chunks.last().chunk_coord == c.spec_chunk());
        }
        lemma_v1_get_absent(spec_v1_encode(d), d, c);
        let cells = spec_v1_cells(chunks.last().cells@, spec_v1_cell_count(chunks.last().cells@.len() as int));
        if cells.len() > 0 {
            assert(enc.drop_last() =~= spec_v1_encode(d));
        }
    }
}

/// Decoding the V1 encoding of a buffer succeeds and gives back the first two bytes of every cell
/// (the bytes that format version 1 keeps); the other two come back cleared.
pub proof fn lemma_v1_roundtrip(b: Buffer, c: CellCoord)
    requires
        b.wf(),
    ensures
        spec_v1_in_bounds(spec_v1_encode(b.chunks@)),
        spec_v1_get(spec_v1_encode(b.chunks@), c) == spec_two_bytes(b.spec_get(c)),
{
    lemma_v1_chunks(b.chunks@, c);
}

} // verus!

verus! {

// ==== V2 - Single-axis run length coding ==========================================================

/// The via bit of a UPC's second byte.
pub const VIA_BIT: u8 = 4;

/// A buffer in format version 2: every chunk, each as two run length coded layers and the
/// positions of its vias.
#[derive(Debug, Clone)]
pub struct EncodeV2 {
    pub chunks: Vec<ChunksV2>,
}

/// One chunk of format version 2.
#[derive(Debug, Clone)]
pub struct ChunksV2 {
    pub chunk_x: i32,
    pub chunk_y: i32,
    /// The first byte of every cell, run length coded.
    pub si: Vec<Run>,
    /// The second byte of every cell without its via bit, run length coded.
    pub metal: Vec<Run>,
    /// Offsets between each via, in row-major order
    pub via_offsets: Vec<u32>,
}

/// The first byte of each cell of a chunk.
pub open spec fn spec_si_layer(cells: Seq<u8>) -> Seq<u8> {
    Seq::new(CHUNK_CELL_COUNT as nat, |j: int| cells[4 * j])
}

/// The second byte of each cell of a chunk, with the via bit cleared.
pub open spec fn spec_metal_layer(cells: Seq<u8>) -> Seq<u8> {
    Seq::new(CHUNK_CELL_COUNT as nat, |j: int| cells[4 * j + 1] & !VIA_BIT)
}

/// The indices, in increasing order, of the first `n` cells whose via bit is set.
pub open spec fn spec_vias(cells: Seq<u8>, n: nat) -> Seq<int>
    decreases n,
{
    if n == 0 {
        Seq::empty()
    } else {
        let prev = spec_vias(cells, (n - 1) as nat);
        if cells[4 * (n - 1) + 1] & VIA_BIT != 0 {
            prev.push(n - 1)
        } else {
            prev
        }
    }
}

/// The gaps between increasing indices, the first measured from 0.
pub open spec fn spec_offsets(vias: Seq<int>) -> Seq<u32> {
    Seq::new(vias.len(), |k: int| (if k == 0 { vias[0] } else { vias[k] - vias[k - 1] }) as u32)
}

/// The sum of a sequence of offsets.
pub open spec fn spec_sum(offsets: Seq<u32>) -> int
    decreases offsets.len(),
{
    if offsets.len() == 0 {
        0
    } else {
        spec_sum(offsets.drop_last()) + offsets.last()
    }
}

/// The running sums of a sequence of offsets: the positions they lead to.
pub open spec fn spec_prefix_sums(offsets: Seq<u32>) -> Seq<int>
    decreases offsets.len(),
{
    if offsets.len() == 0 {
        Seq::empty()
    } else {
        spec_prefix_sums(offsets.drop_last()).push(spec_sum(offsets))
    }
}

/// `e` is the V2 encoding of the buffer chunk `c`.
pub open spec fn spec_v2_encodes_chunk(e: ChunksV2, c: BufferChunk) -> bool {
    &&& e.chunk_x == c.chunk_coord.0.x
    &&& e.chunk_y == c.chunk_coord.0.y
    &&& spec_is_encoding(e.si@, spec_si_layer(c.cells@))
    &&& spec_is_encoding(e.metal@, spec_metal_layer(c.cells@))
    &&& e.via_offsets@ == spec_offsets(spec_vias(c.cells@, CHUNK_CELL_COUNT as nat))
}

/// Neither layer of the chunk is longer than a chunk.
pub open spec fn spec_v2_runs_ok(chunk: ChunksV2) -> bool {
    spec_total(chunk.si@) <= CHUNK_CELL_COUNT && spec_total(chunk.metal@) <= CHUNK_CELL_COUNT
}

/// The layers of every chunk before the `k`-th are no longer than a chunk.
pub open spec fn spec_v2_reached(chunks: Seq<ChunksV2>, k: int) -> bool {
    forall|j: int| 0 <= j < k ==> #[trigger] spec_v2_runs_ok(chunks[j])
}

/// Decoding the chunks does not overflow or index outside a chunk: for every chunk that decoding
/// reaches, its layers' lengths sum to a `u32` and its vias lie within the chunk.
pub open spec fn spec_v2_safe(chunks: Seq<ChunksV2>) -> bool {
    forall|k: int| 0 <= k < chunks.len() && spec_v2_reached(chunks, k) ==> {
        &&& spec_total((#[trigger] chunks[k]).si@) <= u32::MAX
        &&& spec_total(chunks[k].si@) <= CHUNK_CELL_COUNT ==> spec_total(chunks[k].metal@) <= u32::MAX
        &&& spec_v2_runs_ok(chunks[k]) ==> spec_sum(chunks[k].via_offsets@) < CHUNK_CELL_COUNT
    }
}

/// The UPC `u` with its third and fourth bytes cleared: what formats that keep two bytes per cell
/// store of it.
pub open spec fn spec_two_bytes(u: UPC) -> UPC {
    UPC([u.0[0], u.0[1], 0u8, 0u8])
}

/// The UPC that decoding a V2 chunk gives cell index `l`.
pub open spec fn spec_v2_cell(chunk: ChunksV2, l: int) -> UPC {
    UPC([
        spec_decoded(chunk.si@)[l],
        spec_decoded(chunk.metal@)[l] | (if spec_prefix_sums(chunk.via_offsets@).contains(l) { VIA_BIT } else { 0u8 }),
        0u8,
        0u8,
    ])
}

/// The UPC that decoding the V2 chunks gives cell `c`: from the last chunk with its chunk coord,
/// or the empty cell.
pub open spec fn spec_v2_get(chunks: Seq<ChunksV2>, c: CellCoord) -> UPC
    decreases chunks.len(),
{
    if chunks.len() == 0 {
        UPC::spec_default()
    } else if chunks.last().chunk_x == c.spec_chunk().0.x && chunks.last().chunk_y == c.spec_chunk().0.y {
        spec_v2_cell(chunks.last(), spec_local_index(c.spec_local()))
    } else {
        spec_v2_get(chunks.drop_last(), c)
    }
}

proof fn lemma_sum_prefix(offsets: Seq<u32>, k: int)
    requires
        0 <= k <= offsets.len(),
    ensures
        0 <= spec_sum(offsets.take(k)) <= spec_sum(offsets),
    decreases offsets.len() - k,
{
    if k < offsets.len() {
        lemma_sum_prefix(offsets, k + 1);
        assert(offsets.take(k + 1).drop_last() =~= offsets.take(k));
    } else {
        assert(offsets.take(k) =~= offsets);
    }
    lemma_sum_nonneg(offsets.take(k));
}

proof fn lemma_sum_nonneg(offsets: Seq<u32>)
    ensures
        spec_sum(offsets) >= 0,
    decreases offsets.len(),
{
    if offsets.len() > 0 {
        lemma_sum_nonneg(offsets.drop_last());
    }
}

/// The bytes of one layer of a chunk: byte `offset` of each cell, with `mask` applied.
fn layer_of(cells: &Vec<u8>, offset: usize, mask: u8) -> (r: Vec<u8>)
    requires
        cells@.len() == CHUNK_BYTE_LEN,
        offset < UPC_BYTE_LEN,
    ensures
        r@ == Seq::new(CHUNK_CELL_COUNT as nat, |j: int| cells@[4 * j + offset] & mask),
{
    let mut out: Vec<u8> = Vec::new();
    let mut i: usize = 0;
    while i < CHUNK_CELL_COUNT
        invariant
            cells@.len() == CHUNK_BYTE_LEN,
            offset < UPC_BYTE_LEN,
            i <= CHUNK_CELL_COUNT,
            out@ =~= Seq::new(i as nat, |j: int| cells@[4 * j + offset] & mask),
        decreases CHUNK_CELL_COUNT - i,
    {
        out.push(cells[i * UPC_BYTE_LEN + offset] & mask);
        i = i + 1;
    }
    out
}

/// The gaps between the vias of a chunk (see `spec_offsets`).
fn via_offsets_of(cells: &Vec<u8>) -> (r: Vec<u32>)
    requires
        cells@.len() == CHUNK_BYTE_LEN,
    ensures
        r@ == spec_offsets(spec_vias(cells@, CHUNK_CELL_COUNT as nat)),
{
    let mut via_offsets: Vec<u32> = Vec::new();
    let mut last_i: usize = 0;
    let mut i: usize = 0;
    while i < CHUNK_CELL_COUNT
        invariant
            cells@.len() == CHUNK_BYTE_LEN,
            i <= CHUNK_CELL_COUNT,
            via_offsets@ =~= spec_offsets(spec_vias(cells@, i as nat)),
            forall|k: int| 0 <= k < spec_vias(cells@, i as nat).len() ==> 0 <= #[trigger] spec_vias(cells@, i as nat)[k] < i,
            forall|a: int, b: int| 0 <= a < b < spec_vias(cells@, i as nat).len()
                ==> #[trigger] spec_vias(cells@, i as nat)[a] < #[trigger] spec_vias(cells@, i as nat)[b],
            spec_vias(cells@, i as nat).len() == 0 ==> last_i == 0,
            spec_vias(cells@, i as nat).len() > 0 ==> last_i == spec_vias(cells@, i as nat).last(),
        decreases CHUNK_CELL_COUNT - i,
    {
        let ghost prev = spec_vias(cells@, i as nat);
        if cells[i * UPC_BYTE_LEN + 1] & VIA_BIT != 0 {
            let ghost old_offsets = via_offsets@;
            via_offsets.push((i - last_i) as u32);
            last_i = i;
            proof {
                let cur = spec_vias(cells@, (i + 1) as nat);
                assert(cur == prev.push(i as int));
                assert forall|k: int| 0 <= k < cur.len() implies 0 <= #[trigger] cur[k] < i + 1 by {
                    if k < prev.len() {
                        assert(cur[k] == prev[k]);
                    }
                }
                assert forall|a: int, b: int| 0 <= a < b < cur.len() implies #[trigger] cur[a] < #[trigger] cur[b] by {
                    assert(cur[a] == prev[a]);
                    if b < prev.len() {
                        assert(cur[b] == prev[b]);
                    }
                }
                assert(via_offsets@ =~= spec_offsets(cur)) by {
                    assert forall|k: int| 0 <= k < cur.len() implies #[trigger] via_offsets@[k] == spec_offsets(cur)[k] by {
                        if k < prev.len() {
                            assert(cur[k] == prev[k]);
                            if k > 0 {
                                assert(cur[k - 1] == prev[k - 1]);
                            }
                            assert(via_offsets@[k] == old_offsets[k]);
                        }
                    }
                }
            }
        } else {
            proof {
                assert(spec_vias(cells@, (i + 1) as nat) == prev);
            }
        }
        i = i + 1;
    }
    via_offsets
}

impl EncodeV2 {
    /// Encodes every chunk of the buffer: each layer run length coded, and the vias as the gaps
    /// between their indices (see `spec_v2_encodes_chunk`).
    pub fn from(buffer: &Buffer) -> (r: EncodeV2)
        requires
            buffer.wf(),
        ensures
            r.chunks@.len() == buffer.chunks@.len(),
            forall|k: int| 0 <= k < buffer.chunks@.len() ==> spec_v2_encodes_chunk(#[trigger] r.chunks@[k], buffer.chunks@[k]),
    {
        let mut chunks: Vec<ChunksV2> = Vec::new();
        let mut k: usize = 0;
        while k < buffer.chunks.len()
            invariant
                buffer.wf(),
                k <= buffer.chunks@.len(),
                chunks@.len() == k,
                forall|m: int| 0 <= m < k ==> spec_v2_encodes_chunk(#[trigger] chunks@[m], buffer.chunks@[m]),
            decreases buffer.chunks@.len() - k,
        {
            let chunk = &buffer.chunks[k];
            assert(chunk.wf());
            let si_layer = layer_of(&chunk.cells, 0, 0xffu8);
            let metal_layer = layer_of(&chunk.cells, 1, !VIA_BIT);
            proof {
                assert forall|j: int| 0 <= j < CHUNK_CELL_COUNT implies #[trigger] si_layer@[j] == spec_si_layer(chunk.cells@)[j] by {
                    let x = chunk.cells@[4 * j];
                    assert(x & 0xffu8 == x) by (bit_vector);
                }
                assert(si_layer@ =~= spec_si_layer(chunk.cells@));
                assert(metal_layer@ =~= spec_metal_layer(chunk.cells@));
            }
            let si = Run::encode(si_layer);
            let metal = Run::encode(metal_layer);
            let via_offsets = via_offsets_of(&chunk.cells);
            chunks.push(ChunksV2 { chunk_x: chunk.chunk_coord.0.x, chunk_y: chunk.chunk_coord.0.y, si, metal, via_offsets });
            k = k + 1;
        }
        EncodeV2 { chunks }
    }

    /// Whether `Buffer::try_from_v2` can decode this data without overflow (see `spec_v2_safe`).
    pub fn is_decodable(&self) -> (r: bool)
        ensures
            r == spec_v2_safe(self.chunks@),
    {
        let mut k: usize = 0;
        while k < self.chunks.len()
            invariant
                k <= self.chunks@.len(),
                forall|m: int| 0 <= m < k ==> {
                    &&& spec_total((#[trigger] self.chunks@[m]).si@) <= u32::MAX
                    &&& spec_total(self.chunks@[m].si@) <= CHUNK_CELL_COUNT ==> spec_total(self.chunks@[m].metal@) <= u32::MAX
                    &&& spec_v2_runs_ok(self.chunks@[m]) ==> spec_sum(self.chunks@[m].via_offsets@) < CHUNK_CELL_COUNT
                },
                spec_v2_reached(self.chunks@, k as int),
            decreases self.chunks@.len() - k,
        {
            let chunk = &self.chunks[k];
            let si_total = runs_total(&chunk.si);
            let metal_total = runs_total(&chunk.metal);
            let via_total = offsets_total(&chunk.via_offsets);
            let si_ok = si_total <= CHUNK_CELL_COUNT as u64;
            let metal_ok = metal_total <= CHUNK_CELL_COUNT as u64;
            if si_total > u32::MAX as u64 || (si_ok && metal_total > u32::MAX as u64)
                || (si_ok && metal_ok && via_total >= CHUNK_CELL_COUNT as u64) {
                return false;
            }
            if !(si_ok && metal_ok) {
                // Decoding stops with an error at this chunk: nothing after it is reached.
                proof {
                    assert forall|m: int| 0 <= m < self.chunks@.len() && spec_v2_reached(self.chunks@, m) implies {
                        &&& spec_total((#[trigger] self.chunks@[m]).si@) <= u32::MAX
                        &&& spec_total(self.chunks@[m].si@) <= CHUNK_CELL_COUNT ==> spec_total(self.chunks@[m].metal@) <= u32::MAX
                        &&& spec_v2_runs_ok(self.chunks@[m]) ==> spec_sum(self.chunks@[m].via_offsets@) < CHUNK_CELL_COUNT
                    } by {
                        if m > k {
                            assert(spec_v2_runs_ok(self.chunks@[k as int]));
                        }
                    }
                }
                return true;
            }
            k = k + 1;
        }
        true
    }
}

/// The total length of some runs, counted in a `u64` that saturates.
fn runs_total(runs: &Vec<Run>) -> (r: u64)
    ensures
        spec_total(runs@) <= u32::MAX ==> r == spec_total(runs@),
        spec_total(runs@) > u32::MAX ==> r > u32::MAX,
{
    let mut sum: u64 = 0;
    let mut k: usize = 0;
    while k < runs.len()
        invariant
            k <= runs@.len(),
            sum <= u32::MAX + 1,
            spec_total(runs@.take(k as int)) <= u32::MAX ==> sum == spec_total(runs@.take(k as int)),
            spec_total(runs@.take(k as int)) > u32::MAX ==> sum == u32::MAX + 1,
        decreases runs@.len() - k,
    {
        proof {
            assert(runs@.take(k + 1).drop_last() =~= runs@.take(k as int));
            lemma_total_prefix(runs@.take(k + 1), k as int);
        }
        let next = sum + runs[k].length as u64;
        sum = if next > u32::MAX as u64 { u32::MAX as u64 + 1 } else { next };
        k = k + 1;
    }
    proof {
        assert(runs@.take(runs@.len() as int) =~= runs@);
        lemma_total_mono(runs@);
    }
    sum
}

/// Once the running total of some runs passes a bound, the full total does too.
proof fn lemma_total_mono(runs: Seq<Run>)
    ensures
        forall|k: int| 0 <= k <= runs.len() ==> spec_total(#[trigger] runs.take(k)) <= spec_total(runs),
{
    assert forall|k: int| 0 <= k <= runs.len() implies spec_total(#[trigger] runs.take(k)) <= spec_total(runs) by {
        lemma_total_prefix(runs, k);
    }
}

/// The sum of some offsets, counted in a `u64` that saturates at `CHUNK_CELL_COUNT`.
fn offsets_total(offsets: &Vec<u32>) -> (r: u64)
    ensures
        spec_sum(offsets@) < CHUNK_CELL_COUNT ==> r == spec_sum(offsets@),
        spec_sum(offsets@) >= CHUNK_CELL_COUNT ==> r >= CHUNK_CELL_COUNT,
{
    let mut sum: u64 = 0;
    let mut k: usize = 0;
    while k < offsets.len()
        invariant
            k <= offsets@.len(),
            sum <= CHUNK_CELL_COUNT,
            spec_sum(offsets@.take(k as int)) < CHUNK_CELL_COUNT ==> sum == spec_sum(offsets@.take(k as int)),
            spec_sum(offsets@.take(k as int)) >= CHUNK_CELL_COUNT ==> sum == CHUNK_CELL_COUNT,
        decreases offsets@.len() - k,
    {
        proof {
            assert(offsets@.take(k + 1).drop_last() =~= offsets@.take(k as int));
            lemma_sum_prefix(offsets@.take(k + 1), k as int);
            lemma_sum_nonneg(offsets@.take(k as int));
        }
        let next = sum + offsets[k] as u64;
        sum = if next > CHUNK_CELL_COUNT as u64 { CHUNK_CELL_COUNT as u64 } else { next };
        k = k + 1;
    }
    proof {
        assert(offsets@.take(offsets@.len() as int) =~= offsets@);
    }
    sum
}

} // verus!

verus! {

/// Decodes one V2 chunk into a buffer chunk; fails when a layer is longer than a chunk.
fn decode_v2_chunk(chunk: &ChunksV2) -> (r: Result<BufferChunk, CodecError>)
    requires
        spec_total(chunk.si@) <= u32::MAX,
        spec_total(chunk.si@) <= CHUNK_CELL_COUNT ==> spec_total(chunk.metal@) <= u32::MAX,
        spec_v2_runs_ok(*chunk) ==> spec_sum(chunk.via_offsets@) < CHUNK_CELL_COUNT,
    ensures
        r is Ok <==> spec_v2_runs_ok(*chunk),
        r matches Err(e) ==> e is BufferOverrun,
        r matches Ok(bc) ==> {
            &&& bc.wf()
            &&& bc.chunk_coord == ChunkCoord(IVec2 { x: chunk.chunk_x, y: chunk.chunk_y })
            &&& forall|l: int| 0 <= l < CHUNK_CELL_COUNT ==> #[trigger] bc.spec_cell(l) == spec_v2_cell(*chunk, l)
        },
{
    let si = match Run::decode(&chunk.si) {
        Ok(arr) => arr,
        Err(e) => return Err(e),
    };
    let mut metal = match Run::decode(&chunk.metal) {
        Ok(arr) => arr,
        Err(e) => return Err(e),
    };
    let ghost dec_metal = metal@;

    // Convert via offsets to absolute index, and write them to the metal layer
    let offsets = &chunk.via_offsets;
    proof {
        lemma_sum_prefix(offsets@, offsets@.len() as int);
        assert(offsets@.take(offsets@.len() as int) =~= offsets@);
        assert(offsets@.take(0) =~= Seq::<u32>::empty());
        assert forall|l: int| 0 <= l < CHUNK_CELL_COUNT implies #[trigger] dec_metal[l] == dec_metal[l] | 0u8 by {
            let d = dec_metal[l];
            assert(d == d | 0u8) by (bit_vector);
        }
    }
    let mut i: usize = 0;
    let mut k: usize = 0;
    while k < offsets.len()
        invariant
            k <= offsets@.len(),
            offsets@.len() > 0 ==> spec_sum(offsets@) < CHUNK_CELL_COUNT,
            i == spec_sum(offsets@.take(k as int)),
            metal@.len() == CHUNK_CELL_COUNT,
            dec_metal.len() == CHUNK_CELL_COUNT,
            forall|l: int| 0 <= l < CHUNK_CELL_COUNT ==> #[trigger] metal@[l] == dec_metal[l] | (
                if spec_prefix_sums(offsets@.take(k as int)).contains(l) { VIA_BIT } else { 0u8 }),
        decreases offsets@.len() - k,
    {
        proof {
            lemma_sum_prefix(offsets@, k + 1);
            assert(offsets@.take(k + 1).drop_last() =~= offsets@.take(k as int));
        }
        i = i + offsets[k] as usize;
        let ghost before = metal@;
        metal[i] = metal[i] | VIA_BIT;
        proof {
            let ps0 = spec_prefix_sums(offsets@.take(k as int));
            let ps1 = spec_prefix_sums(offsets@.take(k + 1));
            assert(ps1 == ps0.push(i as int));
            assert forall|l: int| 0 <= l < CHUNK_CELL_COUNT implies #[trigger] metal@[l] == dec_metal[l] | (
                if ps1.contains(l) { VIA_BIT } else { 0u8 }) by {
                let d = dec_metal[l];
                if l == i {
                    assert(ps1[ps0.len() as int] == l);
                    assert(ps1.contains(l));
                    if ps0.contains(l) {
                        assert((d | VIA_BIT) | VIA_BIT == d | VIA_BIT) by (bit_vector);
                    } else {
                        assert((d | 0u8) | VIA_BIT == d | VIA_BIT) by (bit_vector);
                    }
                } else {
                    assert(metal@[l] == before[l]);
                    if ps1.contains(l) {
                        let w = choose|w: int| 0 <= w < ps1.len() && ps1[w] == l;
                        assert(w < ps0.len());
                        assert(ps0[w] == l);
                    }
                    if ps0.contains(l) {
                        let w = choose|w: int| 0 <= w < ps0.len() && ps0[w] == l;
                        assert(ps1[w] == l);
                    }
                }
            }
        }
        k = k + 1;
    }
    proof {
        assert(offsets@.take(offsets@.len() as int) =~= offsets@);
    }

    let chunk_coord = ChunkCoord(IVec2 { x: chunk.chunk_x, y: chunk.chunk_y });
    let mut bc = BufferChunk::new(chunk_coord);
    let mut j: usize = 0;
    while j < CHUNK_CELL_COUNT
        invariant
            j <= CHUNK_CELL_COUNT,
            bc.wf(),
            bc.chunk_coord == chunk_coord,
            si@ == spec_decoded(chunk.si@),
            forall|l: int| 0 <= l < CHUNK_CELL_COUNT ==> #[trigger] metal@[l] == spec_decoded(chunk.metal@)[l] | (
                if spec_prefix_sums(chunk.via_offsets@).contains(l) { VIA_BIT } else { 0u8 }),
            forall|l: int| 0 <= l < j ==> #[trigger] bc.spec_cell(l) == spec_v2_cell(*chunk, l),
            forall|l: int| j <= l < CHUNK_CELL_COUNT ==> #[trigger] bc.spec_cell(l) == UPC::spec_default(),
        decreases CHUNK_CELL_COUNT - j,
    {
        let local = LocalCoord::from_upc_idx(j * UPC_BYTE_LEN);
        assert(spec_local_index(local) == j) by (nonlinear_arith)
            requires
                local.0.y == ((j * 4) / 4) / 128,
                local.0.x == ((j * 4) / 4) % 128,
                j < 16384,
        ;
        let cell = UPC([si[j], metal[j], 0u8, 0u8]);
        bc.set_cell(local, cell);
        proof {
            assert(cell.0 =~= spec_v2_cell(*chunk, j as int).0);
        }
        j = j + 1;
    }
    Ok(bc)
}

impl Buffer {
    /// Decodes a V2 buffer. Fails with `BufferOverrun` when a layer of a chunk is longer than a
    /// chunk; otherwise each cell is as `spec_v2_get` says (a later chunk replaces an earlier one
    /// with the same chunk coord). The data must decode without overflow (see `spec_v2_safe` and
    /// `EncodeV2::is_decodable`).
    pub fn try_from_v2(data: EncodeV2) -> (r: Result<Buffer, CodecError>)
        requires
            spec_v2_safe(data.chunks@),
        ensures
            r is Ok <==> forall|k: int| 0 <= k < data.chunks@.len() ==> #[trigger] spec_v2_runs_ok(data.chunks@[k]),
            r matches Err(e) ==> e is BufferOverrun,
            r matches Ok(b) ==> b.wf() && forall|c: CellCoord| #[trigger] b.spec_get(c) == spec_v2_get(data.chunks@, c),
            r matches Ok(b) ==> forall|cc: ChunkCoord| #[trigger] b.spec_has_chunk(cc)
                <==> exists|k: int| 0 <= k < data.chunks@.len() && #[trigger] data.chunks@[k].chunk_x == cc.0.x && data.chunks@[k].chunk_y == cc.0.y,
    {
        let mut buffer = Buffer::new();
        let mut k: usize = 0;
        while k < data.chunks.len()
            invariant
                k <= data.chunks@.len(),
                spec_v2_safe(data.chunks@),
                spec_v2_reached(data.chunks@, k as int),
                buffer.wf(),
                forall|c: CellCoord| #[trigger] buffer.spec_get(c) == spec_v2_get(data.chunks@.take(k as int), c),
                forall|cc: ChunkCoord| #[trigger] buffer.spec_has_chunk(cc)
                    <==> exists|j: int| 0 <= j < k && #[trigger] data.chunks@[j].chunk_x == cc.0.x && data.chunks@[j].chunk_y == cc.0.y,
            decreases data.chunks@.len() - k,
        {
            let chunk = &data.chunks[k];
            assert(data.chunks@[k as int] == *chunk);
            match decode_v2_chunk(chunk) {
                Err(e) => {
                    return Err(e);
                },
                Ok(bc) => {
                    let ghost before = buffer;
                    buffer.insert_chunk(bc);
                    proof {
                        let t = data.chunks@.take(k + 1);
                        assert(t.drop_last() =~= data.chunks@.take(k as int));
                        assert(t.last() == *chunk);
                        assert forall|c: CellCoord| #[trigger] buffer.spec_get(c) == spec_v2_get(t, c) by {
                            crate::coords::lemma_chunk_local_decomposition(c);
                            if c.spec_chunk() == bc.chunk_coord {
                                assert(c.spec_chunk().0.x == chunk.chunk_x);
                            } else {
                                assert(before.spec_get(c) == spec_v2_get(data.chunks@.take(k as int), c));
                                if c.spec_chunk().0.x == chunk.chunk_x && c.spec_chunk().0.y == chunk.chunk_y {
                                    assert(c.spec_chunk() == bc.chunk_coord);
                                }
                            }
                        }
                        assert forall|cc: ChunkCoord| #[trigger] buffer.spec_has_chunk(cc)
                            <==> exists|j: int| 0 <= j < k + 1 && #[trigger] data.chunks@[j].chunk_x == cc.0.x && data.chunks@[j].chunk_y == cc.0.y by {
                            if cc == bc.chunk_coord {
                                assert(data.chunks@[k as int].chunk_x == cc.0.x);
                            }
                            if exists|j: int| 0 <= j < k + 1 && #[trigger] data.chunks@[j].chunk_x == cc.0.x && data.chunks@[j].chunk_y == cc.0.y {
                                let j = choose|j: int| 0 <= j < k + 1 && #[trigger] data.chunks@[j].chunk_x == cc.0.x && data.chunks@[j].chunk_y == cc.0.y;
                                if j == k {
                                    assert(cc == bc.chunk_coord);
                                } else {
                                    assert(before.spec_has_chunk(cc));
                                }
                            }
                        }
                        assert forall|j: int| 0 <= j < k + 1 implies #[trigger] spec_v2_runs_ok(data.chunks@[j]) by {
                            if j < k {
                                assert(spec_v2_runs_ok(data.chunks@[j]));
                            }
                        }
                    }
                },
            }
            k = k + 1;
        }
        assert(data.chunks@.take(data.chunks@.len() as int) =~= data.chunks@);
        Ok(buffer)
    }
}

} // verus!

verus! {

/// The vias of the first `n` cells are increasing indices below `n`, and are exactly the cells
/// whose via bit is set.
proof fn lemma_vias(cells: Seq<u8>, n: nat)
    requires
        4 * n <= cells.len(),
    ensures
        forall|k: int| 0 <= k < spec_vias(cells, n).len() ==> 0 <= #[trigger] spec_vias(cells, n)[k] < n,
        forall|a: int, b: int| 0 <= a < b < spec_vias(cells, n).len()
            ==> #[trigger] spec_vias(cells, n)[a] < #[trigger] spec_vias(cells, n)[b],
        forall|l: int| #[trigger] spec_vias(cells, n).contains(l) <==> 0 <= l < n && cells[4 * l + 1] & VIA_BIT != 0,
    decreases n,
{
    if n > 0 {
        let m = (n - 1) as nat;
        lemma_vias(cells, m);
        let prev = spec_vias(cells, m);
        let cur = spec_vias(cells, n);
        if cells[4 * (m as int) + 1] & VIA_BIT != 0 {
            assert(cur == prev.push(m as int));
            assert forall|k: int| 0 <= k < cur.len() implies 0 <= #[trigger] cur[k] < n by {
                if k < prev.len() {
                    assert(cur[k] == prev[k]);
                }
            }
            assert forall|a: int, b: int| 0 <= a < b < cur.len() implies #[trigger] cur[a] < #[trigger] cur[b] by {
                assert(cur[a] == prev[a]);
                if b < prev.len() {
                    assert(cur[b] == prev[b]);
                }
            }
            assert forall|l: int| #[trigger] cur.contains(l) <==> 0 <= l < n && cells[4 * l + 1] & VIA_BIT != 0 by {
                if cur.contains(l) {
                    let w = choose|w: int| 0 <= w < cur.len() && cur[w] == l;
                    if w < prev.len() {
                        assert(prev[w] == l);
                        assert(prev.contains(l));
                    }
                }
                if 0 <= l < n && cells[4 * l + 1] & VIA_BIT != 0 {
                    if l == m {
                        assert(cur[prev.len() as int] == l);
                    } else {
                        assert(prev.contains(l));
                        let w = choose|w: int| 0 <= w < prev.len() && prev[w] == l;
                        assert(cur[w] == l);
                    }
                }
            }
        } else {
            assert(cur == prev);
        }
    }
}

/// The running sums of the gaps between increasing indices are the indices themselves, and
/// their sum is the last index.
proof fn lemma_offsets_prefix(v: Seq<int>)
    requires
        forall|k: int| 0 <= k < v.len() ==> 0 <= #[trigger] v[k] < CHUNK_CELL_COUNT,
        forall|a: int, b: int| 0 <= a < b < v.len() ==> #[trigger] v[a] < #[trigger] v[b],
    ensures
        spec_prefix_sums(spec_offsets(v)) == v,
        spec_sum(spec_offsets(v)) == if v.len() == 0 { 0 } else { v.last() },
    decreases v.len(),
{
    if v.len() > 0 {
        let d = v.drop_last();
        let o = spec_offsets(v);
        assert(o.drop_last() =~= spec_offsets(d));
        lemma_offsets_prefix(d);
        let n = v.len() - 1;
        if n > 0 {
            assert(v[n - 1] < v[n]);
            assert(d.last() == v[n - 1]);
        }
        assert(o.last() == (if n == 0 { v[0] } else { v[n] - v[n - 1] }));
        assert(spec_prefix_sums(o) =~= v);
    } else {
        assert(spec_prefix_sums(spec_offsets(v)) =~= v);
    }
}

/// Decoding the V2 encoding of a well formed chunk gives back each cell, when no cell uses its
/// third or fourth byte.
proof fn lemma_v2_chunk(e: ChunksV2, c: BufferChunk)
    requires
        c.wf(),
        spec_v2_encodes_chunk(e, c),
    ensures
        spec_v2_runs_ok(e),
        spec_sum(e.via_offsets@) < CHUNK_CELL_COUNT,
        forall|l: int| 0 <= l < CHUNK_CELL_COUNT ==> #[trigger] spec_v2_cell(e, l) == spec_two_bytes(c.spec_cell(l)),
{
    let cells = c.cells@;
    lemma_decode_encode(e.si@, spec_si_layer(cells));
    lemma_decode_encode(e.metal@, spec_metal_layer(cells));
    let vias = spec_vias(cells, CHUNK_CELL_COUNT as nat);
    lemma_vias(cells, CHUNK_CELL_COUNT as nat);
    lemma_offsets_prefix(vias);
    if vias.len() > 0 {
        assert(vias[vias.len() - 1] < CHUNK_CELL_COUNT);
    }
    assert(spec_si_layer(cells).take(CHUNK_CELL_COUNT as int) =~= spec_si_layer(cells));
    assert(spec_metal_layer(cells).take(CHUNK_CELL_COUNT as int) =~= spec_metal_layer(cells));
    assert forall|l: int| 0 <= l < CHUNK_CELL_COUNT implies #[trigger] spec_v2_cell(e, l) == spec_two_bytes(c.spec_cell(l)) by {
        let x = cells[4 * l + 1];
        assert(spec_decoded(e.metal@)[l] == x & !VIA_BIT);
        assert(spec_decoded(e.si@)[l] == cells[4 * l]);
        if x & VIA_BIT != 0 {
            assert(vias.contains(l));
            assert((x & !VIA_BIT) | VIA_BIT == x) by (bit_vector)
                requires
                    x & VIA_BIT != 0,
            ;
        } else {
            assert(!vias.contains(l));
            assert((x & !VIA_BIT) | 0u8 == x) by (bit_vector)
                requires
                    x & VIA_BIT == 0,
            ;
        }
        assert(spec_v2_cell(e, l).0 =~= spec_two_bytes(c.spec_cell(l)).0);
    }
}

/// Decoding the V2 encoding of chunks with distinct chunk coords gives back each cell.
proof fn lemma_v2_chunks(e: Seq<ChunksV2>, chunks: Seq<BufferChunk>, c: CellCoord)
    requires
        e.len() == chunks.len(),
        forall|i: int| 0 <= i < chunks.len() ==> (#[trigger] chunks[i]).wf(),
        forall|i: int, j: int|
            0 <= i < chunks.len() && 0 <= j < chunks.len() && i != j ==> #[trigger] chunks[i].chunk_coord != #[trigger] chunks[j].chunk_coord,
        forall|k: int| 0 <= k < chunks.len() ==> spec_v2_encodes_chunk(#[trigger] e[k], chunks[k]),
    ensures
        spec_v2_get(e, c) == spec_two_bytes(crate::substrate::buffer::spec_get_in(chunks, c)),
    decreases chunks.len(),
{
    if chunks.len() > 0 {
        let n = chunks.len() - 1;
        let d = chunks.drop_last();
        lemma_v2_chunks(e.drop_last(), d, c);
        lemma_get_in_last(chunks, c);
        crate::coords::lemma_chunk_local_decomposition(c);
        assert(chunks[n] == chunks.last());
        assert(e[n] == e.last());
        assert(spec_v2_encodes_chunk(e[n], chunks[n]));
        lemma_v2_chunk(e[n], chunks[n]);
        if e.last().chunk_x == c.spec_chunk().0.x && e.last().chunk_y == c.spec_chunk().0.y {
            assert(chunks.last().chunk_coord == c.spec_chunk());
        }
    }
}

/// Decoding the V2 encoding of a buffer succeeds, holds the buffer's chunks, and gives back the
/// first two bytes of every cell (the bytes that format version 2 keeps); the other two come back
/// cleared.
pub proof fn lemma_v2_roundtrip(b: Buffer, e: Seq<ChunksV2>, c: CellCoord)
    requires
        b.wf(),
        e.len() == b.chunks@.len(),
        forall|k: int| 0 <= k < b.chunks@.len() ==> spec_v2_encodes_chunk(#[trigger] e[k], b.chunks@[k]),
    ensures
        spec_v2_safe(e),
        forall|k: int| 0 <= k < e.len() ==> #[trigger] spec_v2_runs_ok(e[k]),
        spec_v2_get(e, c) == spec_two_bytes(b.spec_get(c)),
        forall|cc: ChunkCoord| #[trigger] b.spec_has_chunk(cc)
            <==> exists|k: int| 0 <= k < e.len() && #[trigger] e[k].chunk_x == cc.0.x && e[k].chunk_y == cc.0.y,
{
    assert forall|cc: ChunkCoord| #[trigger] b.spec_has_chunk(cc)
        <==> exists|k: int| 0 <= k < e.len() && #[trigger] e[k].chunk_x == cc.0.x && e[k].chunk_y == cc.0.y by {
        if b.spec_has_chunk(cc) {
            let k = choose|k: int| 0 <= k < b.chunks@.len() && #[trigger] b.chunks@[k].chunk_coord == cc;
            assert(spec_v2_encodes_chunk(e[k], b.chunks@[k]));
        }
        if exists|k: int| 0 <= k < e.len() && #[trigger] e[k].chunk_x == cc.0.x && e[k].chunk_y == cc.0.y {
            let k = choose|k: int| 0 <= k < e.len() && #[trigger] e[k].chunk_x == cc.0.x && e[k].chunk_y == cc.0.y;
            assert(spec_v2_encodes_chunk(e[k], b.chunks@[k]));
            assert(b.chunks@[k].chunk_coord == cc);
        }
    }
    assert forall|k: int| 0 <= k < e.len() implies #[trigger] spec_v2_runs_ok(e[k]) && spec_sum(e[k].via_offsets@) < CHUNK_CELL_COUNT by {
        assert(b.chunks@[k].wf());
        lemma_v2_chunk(e[k], b.chunks@[k]);
    }
    assert forall|k: int| 0 <= k < e.len() && spec_v2_reached(e, k) implies {
        &&& spec_total((#[trigger] e[k]).si@) <= u32::MAX
        &&& spec_total(e[k].si@) <= CHUNK_CELL_COUNT ==> spec_total(e[k].metal@) <= u32::MAX
        &&& spec_v2_runs_ok(e[k]) ==> spec_sum(e[k].via_offsets@) < CHUNK_CELL_COUNT
    } by {
        assert(spec_v2_runs_ok(e[k]) && spec_sum(e[k].via_offsets@) < CHUNK_CELL_COUNT);
    }
    lemma_v2_chunks(e, b.chunks@, c);
}

} // verus!
