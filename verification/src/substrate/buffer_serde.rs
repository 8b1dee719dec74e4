use std::io::{Read, Write};

use base64::Engine;

use vstd::prelude::*;

use crate::coords::{CellCoord, ChunkCoord, IVec2, LocalCoord, CHUNK_CELL_COUNT};
use crate::substrate::buffer::{spec_count_nonzero, spec_local_index, Buffer, BufferChunk, CHUNK_BYTE_LEN};
use crate::upc::{UPC, UPC_BYTE_LEN};

verus! {

/// Bytes kept per cell by `Buffer::to_brotli`: the first two bytes of each UPC.
pub const BROTLI_CHANNELS: usize = 2;
/// Bytes in the image of a chunk: `BROTLI_CHANNELS` bytes for each of its cells.
pub const BROTLI_IMAGE_LEN: usize = 32768;
/// The brotli quality the chunk images are compressed with.
pub const BROTLI_QUALITY: u32 = 7;
/// The brotli window size (log 2) the chunk images are compressed with.
pub const BROTLI_LGWIN: u32 = 22;

/// The versions of the stored buffer format.
pub enum VersionWrapper {
    /// Brotli compressed chunk data, using `channels` bytes per cell with 128 cell wide chunks.
    V1(BrotliBuffer),
}

/// A buffer as brotli compressed chunk images.
pub struct BrotliBuffer {
    /// Bytes per cell in each image.
    pub channels: u32,
    pub chunks: Vec<BrotliChunk>,
}

/// One chunk as a brotli compressed image: `channels` bytes per cell, in row-major order.
pub struct BrotliChunk {
    pub chunk_x: i32,
    pub chunk_y: i32,
    pub cell_count: u32,
    pub data: Vec<u8>,
}

/// Why a buffer could not be stored or loaded.
#[derive(Debug, PartialEq, Eq)]
pub enum BufferSerdeError {
    /// Brotli reported an error while compressing a chunk image.
    Compress,
    /// Brotli reported an error while decompressing a chunk image; its message.
    Decompress(String),
    /// A chunk image decompressed to fewer bytes than a chunk holds.
    ShortRead { expected: usize, read: usize },
    /// The stored text is not valid base64; the decoder's message.
    Base64(String),
}

/// The standard (padded) base64 text of `bytes`.
pub uninterp spec fn base64_encoded(bytes: Seq<u8>) -> Seq<char>;

/// The bytes that the standard base64 text `text` stands for, or nothing when it is not valid
/// base64.
pub uninterp spec fn base64_decoded(text: Seq<char>) -> Option<Seq<u8>>;

/// The message of the error that decoding the invalid base64 text `text` reports.
pub uninterp spec fn base64_decode_error(text: Seq<char>) -> Seq<char>;

/// Encodes `bytes` with `base64::engine::general_purpose::STANDARD`. The text is named, not
/// spelled out.
#[verifier::external_body]
pub(crate) fn base64_encode(bytes: &Vec<u8>) -> (r: String)
    ensures
        r@ == base64_encoded(bytes@),
{
    base64::engine::general_purpose::STANDARD.encode(bytes)
}

/// Decodes `text` with `base64::engine::general_purpose::STANDARD`: the bytes, or the decode
/// error's message. Both are named, not spelled out.
#[verifier::external_body]
pub(crate) fn base64_decode(text: &str) -> (r: Result<Vec<u8>, String>)
    ensures
        r matches Ok(b) ==> base64_decoded(text@) == Some(b@),
        r matches Err(m) ==> base64_decoded(text@) is None && m@ == base64_decode_error(text@),
{
    match base64::engine::general_purpose::STANDARD.decode(text) {
        Ok(b) => Ok(b),
        Err(e) => Err(e.to_string()),
    }
}

/// The stored bytes of a buffer (see `Buffer::to_brotli`) as base64 text.
pub fn to_base64_string(bytes: &Vec<u8>) -> (r: String)
    ensures
        r@ == base64_encoded(bytes@),
{
    base64_encode(bytes)
}

/// The stored bytes of a buffer from base64 text; fails with `Base64` when the text is not valid
/// base64.
pub fn from_base64_string(text: &str) -> (r: Result<Vec<u8>, BufferSerdeError>)
    ensures
        r is Ok <==> base64_decoded(text@) is Some,
        r matches Ok(b) ==> base64_decoded(text@) == Some(b@),
        r matches Err(e) ==> e is Base64,
        r matches Err(BufferSerdeError::Base64(m)) ==> m@ == base64_decode_error(text@),
{
    match base64_decode(text) {
        Ok(b) => Ok(b),
        Err(m) => Err(BufferSerdeError::Base64(m)),
    }
}

/// What compressing `image` with brotli (a `CompressorWriter` over a `Vec` with the given buffer
/// size, quality and window) gives: the compressed bytes, or nothing when brotli reports an error.
pub uninterp spec fn brotli_compressed(image: Seq<u8>, buffer_size: usize, quality: u32, lgwin: u32) -> Option<Seq<u8>>;

/// What one `read` of a brotli `Decompressor` (with the given buffer size) over `data` into
/// `len` bytes gives: the bytes read, or nothing when brotli reports an error.
pub uninterp spec fn brotli_read_result(data: Seq<u8>, buffer_size: usize, len: usize) -> Option<Seq<u8>>;

/// The message of the error that one `read` of a brotli `Decompressor` over `data` reports.
pub uninterp spec fn brotli_read_error(data: Seq<u8>, buffer_size: usize, len: usize) -> Seq<char>;

/// Compresses `image` with `brotli::CompressorWriter` (writing it whole, then flushing, into a
/// `Vec`). The compressed bytes are named, not spelled out.
#[verifier::external_body]
fn brotli_compress(image: &Vec<u8>, buffer_size: usize, quality: u32, lgwin: u32) -> (r: Option<Vec<u8>>)
    ensures
        r matches Some(v) ==> brotli_compressed(image@, buffer_size, quality, lgwin) == Some(v@),
        r is None ==> brotli_compressed(image@, buffer_size, quality, lgwin) is None,
{
    let mut writer = brotli::CompressorWriter::new(Vec::new(), buffer_size, quality, lgwin);
    if writer.write_all(image).is_err() {
        return None;
    }
    match writer.flush() {
        Ok(()) => Some(writer.into_inner()),
        Err(_) => None,
    }
}

/// One `Read::read` of a `brotli::Decompressor` over `data` into `len` zeroed bytes: the buffer
/// and the number of bytes read (at most `len`, as `Read::read` documents), or the error's
/// message. The bytes read are named, not spelled out.
#[verifier::external_body]
fn brotli_read(data: &Vec<u8>, buffer_size: usize, len: usize) -> (r: Result<(Vec<u8>, usize), String>)
    ensures
        r matches Ok((v, n)) ==> n <= len && v@.len() == len && brotli_read_result(data@, buffer_size, len) == Some(v@.take(n as int)),
        r matches Err(e) ==> brotli_read_result(data@, buffer_size, len) is None && e@ == brotli_read_error(data@, buffer_size, len),
{
    let mut buf = vec![0u8; len];
    let mut reader = brotli::Decompressor::new(&data[..], buffer_size);
    match reader.read(&mut buf[..]) {
        Ok(n) => Ok((buf, n)),
        Err(e) => Err(format!("{}", e)),
    }
}

/// The image of a chunk that `Buffer::to_brotli` compresses: the first `BROTLI_CHANNELS` bytes of
/// each cell, cell after cell.
pub open spec fn spec_chunk_image(cells: Seq<u8>) -> Seq<u8> {
    Seq::new((CHUNK_CELL_COUNT * BROTLI_CHANNELS) as nat, |k: int| cells[(k / 2) * 4 + k % 2])
}

/// `bc` is the compressed form of the buffer chunk `c`.
pub open spec fn spec_brotli_chunk_of(bc: BrotliChunk, c: BufferChunk) -> bool {
    &&& bc.chunk_x == c.chunk_coord.0.x
    &&& bc.chunk_y == c.chunk_coord.0.y
    &&& bc.cell_count == c.cell_count
    &&& brotli_compressed(spec_chunk_image(c.cells@), BROTLI_IMAGE_LEN, BROTLI_QUALITY, BROTLI_LGWIN) == Some(bc.data@)
}

impl Buffer {
    /// Compresses every chunk, in order: its first two bytes per cell as an image, brotli
    /// compressed (see `spec_brotli_chunk_of`). Fails when brotli reports an error.
    pub fn to_brotli(&self) -> (r: Result<BrotliBuffer, BufferSerdeError>)
        requires
            self.wf(),
        ensures
            r is Ok <==> forall|k: int| 0 <= k < self.chunks@.len() ==> (#[trigger] brotli_compressed(
                spec_chunk_image(self.chunks@[k].cells@), BROTLI_IMAGE_LEN, BROTLI_QUALITY, BROTLI_LGWIN)) is Some,
            r matches Err(e) ==> e is Compress,
            r matches Ok(bb) ==> {
                &&& bb.channels == BROTLI_CHANNELS
                &&& bb.chunks@.len() == self.chunks@.len()
                &&& forall|k: int| 0 <= k < self.chunks@.len() ==> spec_brotli_chunk_of(#[trigger] bb.chunks@[k], self.chunks@[k])
            },
    {
        let mut chunks: Vec<BrotliChunk> = Vec::new();
        let mut k: usize = 0;
        while k < self.chunks.len()
            invariant
                self.wf(),
                k <= self.chunks@.len(),
                chunks@.len() == k,
                forall|m: int| 0 <= m < k ==> spec_brotli_chunk_of(#[trigger] chunks@[m], self.chunks@[m]),
            decreases self.chunks@.len() - k,
        {
            let chunk = &self.chunks[k];
            assert(chunk.wf());
            let mut image: Vec<u8> = Vec::new();
            let mut i: usize = 0;
            while i < CHUNK_CELL_COUNT
                invariant
                    chunk.cells@.len() == CHUNK_BYTE_LEN,
                    i <= CHUNK_CELL_COUNT,
                    image@ =~= spec_chunk_image(chunk.cells@).take((i * BROTLI_CHANNELS) as int),
                decreases CHUNK_CELL_COUNT - i,
            {
                let mut j: usize = 0;
                while j < BROTLI_CHANNELS
                    invariant
                        chunk.cells@.len() == CHUNK_BYTE_LEN,
                        i < CHUNK_CELL_COUNT,
                        j <= BROTLI_CHANNELS,
                        image@ =~= spec_chunk_image(chunk.cells@).take((i * BROTLI_CHANNELS + j) as int),
                    decreases BROTLI_CHANNELS - j,
                {
                    let ghost kk = (i * BROTLI_CHANNELS + j) as int;
                    assert(kk / 2 == i && kk % 2 == j) by (nonlinear_arith)
                        requires
                            kk == i * 2 + j,
                            j < 2,
                    ;
                    image.push(chunk.cells[i * UPC_BYTE_LEN + j]);
                    j = j + 1;
                }
                i = i + 1;
            }
            proof {
                assert(image@ =~= spec_chunk_image(chunk.cells@));
            }
            let data = match brotli_compress(&image, BROTLI_IMAGE_LEN, BROTLI_QUALITY, BROTLI_LGWIN) {
                Some(data) => data,
                None => {
                    proof {
                        assert(self.chunks@[k as int] == *chunk);
                    }
                    return Err(BufferSerdeError::Compress);
                },
            };
            proof {
                crate::substrate::buffer::lemma_count_bound(chunk.cells@, CHUNK_CELL_COUNT as nat);
            }
            chunks.push(BrotliChunk {
                chunk_x: chunk.chunk_coord.0.x,
                chunk_y: chunk.chunk_coord.0.y,
                cell_count: chunk.cell_count as u32,
                data,
            });
            k = k + 1;
        }
        proof {
            assert forall|k: int| 0 <= k < self.chunks@.len() implies (#[trigger] brotli_compressed(
                spec_chunk_image(self.chunks@[k].cells@), BROTLI_IMAGE_LEN, BROTLI_QUALITY, BROTLI_LGWIN)) is Some by {
                assert(spec_brotli_chunk_of(chunks@[k], self.chunks@[k]));
            }
        }
        Ok(BrotliBuffer { channels: BROTLI_CHANNELS as u32, chunks })
    }
}


/// Byte `j` of the cell at index `l` of a chunk image with `channels` bytes per cell (zero past
/// `channels`).
pub open spec fn spec_image_byte(image: Seq<u8>, channels: int, l: int, j: int) -> u8 {
    if j < channels { image[l * channels + j] } else { 0u8 }
}

/// The cell at index `l` of a chunk image with `channels` bytes per cell.
pub open spec fn spec_image_cell(image: Seq<u8>, channels: int, l: int) -> UPC {
    UPC([
        spec_image_byte(image, channels, l, 0),
        spec_image_byte(image, channels, l, 1),
        spec_image_byte(image, channels, l, 2),
        spec_image_byte(image, channels, l, 3),
    ])
}

/// The number of bytes in the image of a chunk with `channels` bytes per cell.
pub open spec fn spec_image_len(channels: u32) -> usize {
    (CHUNK_CELL_COUNT * channels) as usize
}

/// The image that decompressing the chunk gives, if one read gives it whole.
pub open spec fn spec_read_full(c: BrotliChunk, channels: u32) -> bool {
    brotli_read_result(c.data@, CHUNK_CELL_COUNT, spec_image_len(channels)) matches Some(img) && img.len() == spec_image_len(channels)
}

/// How many bytes one read of the chunk's image gives, if it reports no error.
pub open spec fn spec_read_len(c: BrotliChunk, channels: u32) -> Option<nat> {
    match brotli_read_result(c.data@, CHUNK_CELL_COUNT, spec_image_len(channels)) {
        Some(img) => Some(img.len()),
        None => None,
    }
}

/// The chunks before the `k`-th decompress whole.
pub open spec fn spec_reads_full_before(chunks: Seq<BrotliChunk>, channels: u32, k: int) -> bool {
    forall|m: int| 0 <= m < k ==> #[trigger] spec_read_full(chunks[m], channels)
}

/// The UPC that loading the compressed chunks gives cell `c`: from the last chunk with its chunk
/// coord, or the empty cell.
pub open spec fn spec_brotli_get(chunks: Seq<BrotliChunk>, channels: u32, c: CellCoord) -> UPC
    decreases chunks.len(),
{
    if chunks.len() == 0 {
        UPC::spec_default()
    } else if chunks.last().chunk_x == c.spec_chunk().0.x && chunks.last().chunk_y == c.spec_chunk().0.y {
        spec_image_cell(
            brotli_read_result(chunks.last().data@, CHUNK_CELL_COUNT, spec_image_len(channels))->0,
            channels as int,
            spec_local_index(c.spec_local()),
        )
    } else {
        spec_brotli_get(chunks.drop_last(), channels, c)
    }
}

impl Buffer {
    /// Loads compressed chunks (a later chunk replaces an earlier one with the same chunk coord):
    /// each chunk's image is read with one brotli read, and its cells take their first `channels`
    /// bytes from it. Fails at the first chunk whose read reports an error (`Decompress`, with its
    /// message) or gives fewer bytes than the image holds (`ShortRead`). At most four channels.
    /// The `cell_count` stored with each compressed chunk is not read: each loaded chunk counts
    /// its non-empty cells afresh from its cells (a stored cell whose only non-zero bytes were
    /// the dropped ones is empty once loaded), so that every chunk of the result keeps its count
    /// equal to its cells.
    pub fn from_brotli(bb: BrotliBuffer) -> (r: Result<Buffer, BufferSerdeError>)
        requires
            bb.chunks@.len() > 0 ==> bb.channels <= 4,
        ensures
            r is Ok <==> spec_reads_full_before(bb.chunks@, bb.channels, bb.chunks@.len() as int),
            r matches Err(BufferSerdeError::Decompress(m)) ==> (exists|k: int| 0 <= k < bb.chunks@.len()
                && spec_reads_full_before(bb.chunks@, bb.channels, k)
                && spec_read_len(#[trigger] bb.chunks@[k], bb.channels) is None
                && m@ == brotli_read_error(bb.chunks@[k].data@, CHUNK_CELL_COUNT, spec_image_len(bb.channels))),
            r matches Err(BufferSerdeError::ShortRead { expected, read }) ==> expected == spec_image_len(bb.channels) && read < expected
                && (exists|k: int| 0 <= k < bb.chunks@.len()
                && spec_reads_full_before(bb.chunks@, bb.channels, k)
                && spec_read_len(#[trigger] bb.chunks@[k], bb.channels) == Some(read as nat)),
            r matches Err(e) ==> !(e is Compress) && !(e is Base64),
            r matches Ok(b) ==> b.wf() && forall|c: CellCoord| #[trigger] b.spec_get(c) == spec_brotli_get(bb.chunks@, bb.channels, c),
            r matches Ok(b) ==> forall|i: int| 0 <= i < b.chunks@.len() ==> #[trigger] b.chunks@[i].cell_count
                == spec_count_nonzero(b.chunks@[i].cells@, CHUNK_CELL_COUNT as nat),
            r matches Ok(b) ==> forall|cc: ChunkCoord| #[trigger] b.spec_has_chunk(cc)
                <==> exists|k: int| 0 <= k < bb.chunks@.len() && #[trigger] bb.chunks@[k].chunk_x == cc.0.x && bb.chunks@[k].chunk_y == cc.0.y,
    {
        if bb.chunks.len() == 0 {
            let empty = Buffer::new();
            proof {
                assert forall|c: CellCoord| #[trigger] empty.spec_get(c) == spec_brotli_get(bb.chunks@, bb.channels, c) by {
                    assert(bb.chunks@.take(0) =~= bb.chunks@);
                }
            }
            return Ok(empty);
        }
        let channels = bb.channels as usize;
        let expected = CHUNK_CELL_COUNT * channels;
        let ghost chunks_v = bb.chunks@;
        let mut buffer = Buffer::new();
        let mut k: usize = 0;
        while k < bb.chunks.len()
            invariant
                chunks_v == bb.chunks@,
                channels == bb.channels,
                channels <= 4,
                expected == spec_image_len(bb.channels),
                k <= chunks_v.len(),
                spec_reads_full_before(chunks_v, bb.channels, k as int),
                buffer.wf(),
                forall|c: CellCoord| #[trigger] buffer.spec_get(c) == spec_brotli_get(chunks_v.take(k as int), bb.channels, c),
                forall|cc: ChunkCoord| #[trigger] buffer.spec_has_chunk(cc)
                    <==> exists|j: int| 0 <= j < k && #[trigger] chunks_v[j].chunk_x == cc.0.x && chunks_v[j].chunk_y == cc.0.y,
            decreases chunks_v.len() - k,
        {
            let chunk = &bb.chunks[k];
            let (image, n) = match brotli_read(&chunk.data, CHUNK_CELL_COUNT, expected) {
                Err(e) => {
                    proof {
                        assert(chunks_v[k as int] == *chunk);
                        assert(!spec_read_full(chunks_v[k as int], bb.channels));
                    }
                    return Err(BufferSerdeError::Decompress(e));
                },
                Ok(read) => read,
            };
            if n != expected {
                proof {
                    assert(chunks_v[k as int] == *chunk);
                    assert(!spec_read_full(chunks_v[k as int], bb.channels));
                }
                return Err(BufferSerdeError::ShortRead { expected, read: n });
            }
            proof {
                assert(image@.take(n as int) =~= image@);
            }

            // Convert to standard chunk
            let chunk_coord = ChunkCoord(IVec2 { x: chunk.chunk_x, y: chunk.chunk_y });
            let mut bc = BufferChunk::new(chunk_coord);
            let mut i: usize = 0;
            while i < CHUNK_CELL_COUNT
                invariant
                    channels <= 4,
                    expected == CHUNK_CELL_COUNT * channels,
                    image@.len() == expected,
                    i <= CHUNK_CELL_COUNT,
                    bc.wf(),
                    bc.chunk_coord == chunk_coord,
                    forall|l: int| 0 <= l < i ==> #[trigger] bc.spec_cell(l) == spec_image_cell(image@, channels as int, l),
                    forall|l: int| i <= l < CHUNK_CELL_COUNT ==> #[trigger] bc.spec_cell(l) == UPC::spec_default(),
                decreases CHUNK_CELL_COUNT - i,
            {
                let mut bytes = [0u8; 4];
                let mut j: usize = 0;
                while j < channels
                    invariant
                        channels <= 4,
                        expected == CHUNK_CELL_COUNT * channels,
                        image@.len() == expected,
                        i < CHUNK_CELL_COUNT,
                        j <= channels,
                        bytes@.len() == 4,
                        forall|jj: int| 0 <= jj < j ==> bytes@[jj] == #[trigger] spec_image_byte(image@, channels as int, i as int, jj),
                        forall|jj: int| j <= jj < 4 ==> bytes@[jj] == 0,
                    decreases channels - j,
                {
                    assert(i * channels + j < expected) by (nonlinear_arith)
                        requires
                            i < CHUNK_CELL_COUNT,
                            j < channels,
                            expected == CHUNK_CELL_COUNT * channels,
                    ;
                    bytes[j] = image[i * channels + j];
                    j = j + 1;
                }
                let upc = UPC(bytes);
                proof {
                    assert(upc.0 =~= spec_image_cell(image@, channels as int, i as int).0) by {
                        assert forall|jj: int| 0 <= jj < 4 implies upc.0@[jj] == spec_image_cell(image@, channels as int, i as int).0@[jj] by {
                            assert(upc.0@[jj] == spec_image_byte(image@, channels as int, i as int, jj));
                        }
                    }
                }
                let local = LocalCoord::from_upc_idx(i * UPC_BYTE_LEN);
                assert(spec_local_index(local) == i) by (nonlinear_arith)
                    requires
                        local.0.y == ((i * 4) / 4) / 128,
                        local.0.x == ((i * 4) / 4) % 128,
                        i < 16384,
                ;
                bc.set_cell(local, upc);
                i = i + 1;
            }
            let ghost before = buffer;
            buffer.insert_chunk(bc);
            proof {
                let t = chunks_v.take(k + 1);
                assert(t.drop_last() =~= chunks_v.take(k as int));
                assert(t.last() == *chunk);
                assert(chunks_v[k as int] == *chunk);
                assert forall|c: CellCoord| #[trigger] buffer.spec_get(c) == spec_brotli_get(t, bb.channels, c) by {
                    crate::coords::lemma_chunk_local_decomposition(c);
                    if c.spec_chunk() == chunk_coord {
                        assert(c.spec_chunk().0.x == chunk.chunk_x);
                    } else {
                        assert(before.spec_get(c) == spec_brotli_get(chunks_v.take(k as int), bb.channels, c));
                        if c.spec_chunk().0.x == chunk.chunk_x && c.spec_chunk().0.y == chunk.chunk_y {
                            assert(c.spec_chunk() == chunk_coord);
                        }
                    }
                }
                assert forall|cc: ChunkCoord| #[trigger] buffer.spec_has_chunk(cc)
                    <==> exists|j: int| 0 <= j < k + 1 && #[trigger] chunks_v[j].chunk_x == cc.0.x && chunks_v[j].chunk_y == cc.0.y by {
                    if cc == chunk_coord {
                        assert(chunks_v[k as int].chunk_x == cc.0.x);
                    }
                    if exists|j: int| 0 <= j < k + 1 && #[trigger] chunks_v[j].chunk_x == cc.0.x && chunks_v[j].chunk_y == cc.0.y {
                        let j = choose|j: int| 0 <= j < k + 1 && #[trigger] chunks_v[j].chunk_x == cc.0.x && chunks_v[j].chunk_y == cc.0.y;
                        if j == k {
                            assert(cc == chunk_coord);
                        } else {
                            assert(before.spec_has_chunk(cc));
                        }
                    }
                }
                assert forall|m: int| 0 <= m < k + 1 implies #[trigger] spec_read_full(chunks_v[m], bb.channels) by {
                    if m < k {
                        assert(spec_read_full(chunks_v[m], bb.channels));
                    }
                }
            }
            k = k + 1;
        }
        proof {
            assert(chunks_v.take(chunks_v.len() as int) =~= chunks_v);
        }
        Ok(buffer)
    }
}

} // verus!
