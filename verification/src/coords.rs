use vstd::prelude::*;

verus! {

/// A signed two dimensional integer vector (a cell location, or a direction between cells).
#[derive(Clone, Copy, Debug, PartialEq, Eq, Structural, Hash)]
pub struct IVec2 {
    pub x: i32,
    pub y: i32,
}

impl IVec2 {
    pub fn new(x: i32, y: i32) -> (r: IVec2)
        ensures
            r.x == x,
            r.y == y,
    {
        IVec2 { x, y }
    }

    pub open spec fn spec_zero() -> IVec2 {
        IVec2 { x: 0, y: 0 }
    }

    /// The zero vector.
    pub fn zero() -> (r: IVec2)
        ensures
            r == IVec2::spec_zero(),
    {
        IVec2 { x: 0, y: 0 }
    }

    /// Component-wise sum; both components must fit in an `i32`.
    pub fn add(self, rhs: IVec2) -> (r: IVec2)
        requires
            i32::MIN <= self.x + rhs.x <= i32::MAX,
            i32::MIN <= self.y + rhs.y <= i32::MAX,
        ensures
            r.x == self.x + rhs.x,
            r.y == self.y + rhs.y,
    {
        IVec2 { x: self.x + rhs.x, y: self.y + rhs.y }
    }

    /// Component-wise difference; both components must fit in an `i32`.
    pub fn sub(self, rhs: IVec2) -> (r: IVec2)
        requires
            i32::MIN <= self.x - rhs.x <= i32::MAX,
            i32::MIN <= self.y - rhs.y <= i32::MAX,
        ensures
            r.x == self.x - rhs.x,
            r.y == self.y - rhs.y,
    {
        IVec2 { x: self.x - rhs.x, y: self.y - rhs.y }
    }

    /// Component-wise negation; neither component may be `i32::MIN`.
    pub fn neg(self) -> (r: IVec2)
        requires
            self.x != i32::MIN,
            self.y != i32::MIN,
        ensures
            r.x == -self.x,
            r.y == -self.y,
    {
        IVec2 { x: -self.x, y: -self.y }
    }
}

} // verus!

verus! {

pub const LOG_CHUNK_SIZE: usize = 7;
pub const CHUNK_SIZE: usize = 128;
pub const CHUNK_CELL_COUNT: usize = 16384;

} // verus!

verus! {

/// An unsigned two dimensional integer vector (a location within a chunk).
#[derive(Clone, Copy, Debug, PartialEq, Eq, Structural, Hash)]
pub struct UVec2 {
    pub x: u32,
    pub y: u32,
}

/// The location of a single cell.
#[derive(Clone, Copy, Debug, PartialEq, Eq, Structural, Hash)]
pub struct CellCoord(pub IVec2);

/// The location of a chunk of `CHUNK_SIZE` by `CHUNK_SIZE` cells.
#[derive(Clone, Copy, Debug, PartialEq, Eq, Structural, Hash)]
pub struct ChunkCoord(pub IVec2);

/// The location of a cell within its chunk.
#[derive(Clone, Copy, Debug, PartialEq, Eq, Structural, Hash)]
pub struct LocalCoord(pub UVec2);

/// A cell location relative to some anchor cell.
#[derive(Clone, Copy, Debug, PartialEq, Eq, Structural, Hash)]
pub struct CellCoordOffset(pub IVec2);

/// The mask that clears the within-chunk bits of a cell coordinate.
pub const UPPER_MASK: i32 = -128i32;
/// The mask that keeps the within-chunk bits of a cell index.
pub const LOWER_MASK: usize = 127;

proof fn lemma_shr7(x: i32)
    by (bit_vector)
    ensures
        ((x >> 7i32) as i64) * 128 <= (x as i64),
        (x as i64) < ((x >> 7i32) as i64) * 128 + 128,
        (x - (x & -128i32)) as i64 == (x as i64) - ((x >> 7i32) as i64) * 128,
{
}

proof fn lemma_floor_div(x: i32)
    ensures
        (x >> 7i32) as int == (x as int) / 128,
        (x - (x & UPPER_MASK)) as int == (x as int) % 128,
        0 <= (x - (x & UPPER_MASK)) < 128,
{
    lemma_shr7(x);
}

proof fn lemma_shl7(x: i32)
    by (bit_vector)
    requires
        -0x100_0000i32 <= x < 0x100_0000i32,
    ensures
        (x << 7i32) as i64 == (x as i64) * 128,
{
}

/// The chunk coordinate is in the range whose cells all have `i32` coordinates.
pub open spec fn chunk_in_range(c: ChunkCoord) -> bool {
    -0x100_0000 <= c.0.x < 0x100_0000 && -0x100_0000 <= c.0.y < 0x100_0000
}

impl CellCoord {
    /// The chunk holding this cell: each component divided by `CHUNK_SIZE`, rounding down.
    pub open spec fn spec_chunk(self) -> ChunkCoord {
        ChunkCoord(IVec2 { x: (self.0.x / 128) as i32, y: (self.0.y / 128) as i32 })
    }

    /// The location within its chunk: each component modulo `CHUNK_SIZE` (always non-negative).
    pub open spec fn spec_local(self) -> LocalCoord {
        LocalCoord(UVec2 { x: (self.0.x % 128) as u32, y: (self.0.y % 128) as u32 })
    }

    /// The cell at offset `(x, y)` within a chunk.
    pub open spec fn spec_from_offset_into_chunk(chunk_coord: ChunkCoord, x: int, y: int) -> CellCoord {
        CellCoord(IVec2 { x: (chunk_coord.0.x * 128 + x) as i32, y: (chunk_coord.0.y * 128 + y) as i32 })
    }

    pub fn new(x: i32, y: i32) -> (r: CellCoord)
        ensures
            r.0.x == x,
            r.0.y == y,
    {
        CellCoord(IVec2::new(x, y))
    }

    /// The cell at offset `(x, y)` (each below `CHUNK_SIZE`) within a chunk.
    pub fn from_offset_into_chunk(chunk_coord: &ChunkCoord, x: usize, y: usize) -> (r: CellCoord)
        requires
            chunk_in_range(*chunk_coord),
            x < CHUNK_SIZE,
            y < CHUNK_SIZE,
        ensures
            r == CellCoord::spec_from_offset_into_chunk(*chunk_coord, x as int, y as int),
    {
        proof {
            lemma_shl7(chunk_coord.0.x);
            lemma_shl7(chunk_coord.0.y);
        }
        CellCoord(IVec2::new((chunk_coord.0.x << 7i32) + x as i32, (chunk_coord.0.y << 7i32) + y as i32))
    }
}

impl vstd::std_specs::convert::FromSpecImpl<CellCoord> for ChunkCoord {
    open spec fn obeys_from_spec() -> bool {
        true
    }

    open spec fn from_spec(c: CellCoord) -> ChunkCoord {
        c.spec_chunk()
    }
}

impl From<CellCoord> for ChunkCoord {
    /// The chunk holding the cell (see `CellCoord::spec_chunk`).
    fn from(c: CellCoord) -> ChunkCoord {
        proof {
            lemma_floor_div(c.0.x);
            lemma_floor_div(c.0.y);
        }
        ChunkCoord(IVec2::new(c.0.x >> 7i32, c.0.y >> 7i32))
    }
}

impl vstd::std_specs::convert::FromSpecImpl<CellCoord> for LocalCoord {
    open spec fn obeys_from_spec() -> bool {
        true
    }

    open spec fn from_spec(c: CellCoord) -> LocalCoord {
        c.spec_local()
    }
}

impl From<CellCoord> for LocalCoord {
    /// The location of the cell within its chunk (see `CellCoord::spec_local`).
    fn from(c: CellCoord) -> LocalCoord {
        proof {
            lemma_floor_div(c.0.x);
            lemma_floor_div(c.0.y);
        }
        LocalCoord(UVec2 { x: (c.0.x - (c.0.x & UPPER_MASK)) as u32, y: (c.0.y - (c.0.y & UPPER_MASK)) as u32 })
    }
}

impl ChunkCoord {
    /// The lowest (bottom-left) cell of the chunk.
    pub open spec fn spec_first_cell_coord(self) -> CellCoord {
        CellCoord(IVec2 { x: (self.0.x * 128) as i32, y: (self.0.y * 128) as i32 })
    }

    /// The lowest (bottom-left) cell of the chunk.
    pub fn first_cell_coord(&self) -> (r: CellCoord)
        requires
            chunk_in_range(*self),
        ensures
            r == self.spec_first_cell_coord(),
    {
        proof {
            lemma_shl7(self.0.x);
            lemma_shl7(self.0.y);
        }
        CellCoord(IVec2::new(self.0.x << 7i32, self.0.y << 7i32))
    }

    /// The highest (top-right) cell of the chunk.
    pub fn last_cell_coord(&self) -> (r: CellCoord)
        requires
            chunk_in_range(*self),
            self.0.x * 128 + CHUNK_SIZE <= i32::MAX,
            self.0.y * 128 + CHUNK_SIZE <= i32::MAX,
        ensures
            r.0.x == self.0.x * 128 + CHUNK_SIZE - 1,
            r.0.y == self.0.y * 128 + CHUNK_SIZE - 1,
    {
        proof {
            lemma_shl7(self.0.x);
            lemma_shl7(self.0.y);
        }
        let size = CHUNK_SIZE as i32;
        assert(size == 128);
        CellCoord(IVec2::new((self.0.x << 7i32) + size - 1, (self.0.y << 7i32) + size - 1))
    }
}

impl LocalCoord {
    /// True for a location inside a chunk.
    pub open spec fn spec_in_chunk(self) -> bool {
        self.0.x < 128 && self.0.y < 128
    }

    /// The byte index of this cell's 4-byte UPC within a chunk (row-major order).
    pub open spec fn spec_upc_idx(self) -> int {
        (self.0.y * 128 + self.0.x) * 4
    }

    /// The cell location of this local coordinate within the given chunk.
    pub fn to_cell_coord(&self, chunk_coord: &ChunkCoord) -> (r: CellCoord)
        requires
            chunk_in_range(*chunk_coord),
            self.spec_in_chunk(),
        ensures
            r == CellCoord::spec_from_offset_into_chunk(*chunk_coord, self.0.x as int, self.0.y as int),
    {
        let first = chunk_coord.first_cell_coord();
        CellCoord(IVec2::new(self.0.x as i32 + first.0.x, self.0.y as i32 + first.0.y))
    }

    /// The local coordinate of the UPC that starts at byte `idx` of a chunk.
    pub fn from_upc_idx(idx: usize) -> (r: LocalCoord)
        requires
            idx < CHUNK_CELL_COUNT * 4,
        ensures
            r.spec_in_chunk(),
            r.0.y == (idx / 4) / 128,
            r.0.x == (idx / 4) % 128,
    {
        let cell_idx = idx >> 2usize;
        let y = cell_idx >> LOG_CHUNK_SIZE;
        let x = cell_idx & LOWER_MASK;
        assert(cell_idx == idx / 4 && y == cell_idx / 128 && x == cell_idx % 128 && cell_idx < CHUNK_CELL_COUNT) by (bit_vector)
            requires
                cell_idx == idx >> 2usize,
                y == cell_idx >> 7usize,
                x == cell_idx & 127usize,
                idx < 65536usize,
        ;
        LocalCoord(UVec2 { x: x as u32, y: y as u32 })
    }

    /// The byte index of this cell's 4-byte UPC within a chunk (row-major order).
    pub fn to_upc_idx(&self) -> (r: usize)
        requires
            self.spec_in_chunk(),
        ensures
            r == self.spec_upc_idx(),
    {
        let y = self.0.y as usize;
        let x = self.0.x as usize;
        let r = ((y << LOG_CHUNK_SIZE) | x) << 2usize;
        assert(r == (y * 128 + x) * 4) by (bit_vector)
            requires
                r == ((y << 7usize) | x) << 2usize,
                x < 128usize,
                y < 128usize,
        ;
        r
    }
}

impl CellCoordOffset {
    /// The cell at this offset from `anchor`; the sum must fit in `i32`.
    pub fn to_cell_coord(&self, anchor: CellCoord) -> (r: CellCoord)
        requires
            i32::MIN <= anchor.0.x + self.0.x <= i32::MAX,
            i32::MIN <= anchor.0.y + self.0.y <= i32::MAX,
        ensures
            r.0.x == anchor.0.x + self.0.x,
            r.0.y == anchor.0.y + self.0.y,
    {
        CellCoord(anchor.0.add(self.0))
    }
}

/// The 64 bit key of a cell: the y coordinate in the upper half, or-ed with the x coordinate
/// sign-extended to 64 bits.
pub open spec fn spec_cell_key(c: CellCoord) -> u64 {
    ((c.0.y as u64) << 32u64) | (c.0.x as u64)
}

impl vstd::std_specs::convert::FromSpecImpl<CellCoord> for u64 {
    open spec fn obeys_from_spec() -> bool {
        true
    }

    open spec fn from_spec(c: CellCoord) -> u64 {
        spec_cell_key(c)
    }
}

impl From<CellCoord> for u64 {
    /// The 64 bit key of the cell (see `spec_cell_key`).
    fn from(cell_coord: CellCoord) -> u64 {
        ((cell_coord.0.y as u64) << 32u64) | (cell_coord.0.x as u64)
    }
}

impl vstd::std_specs::convert::FromSpecImpl<(i32, i32)> for CellCoord {
    open spec fn obeys_from_spec() -> bool {
        true
    }

    open spec fn from_spec(v: (i32, i32)) -> CellCoord {
        CellCoord(IVec2 { x: v.0, y: v.1 })
    }
}

impl From<(i32, i32)> for CellCoord {
    fn from(v: (i32, i32)) -> CellCoord {
        CellCoord(IVec2::new(v.0, v.1))
    }
}

} // verus!

verus! {

/// Every cell is the cell at its local offset within its chunk.
pub proof fn lemma_chunk_local_decomposition(c: CellCoord)
    ensures
        c.spec_local().spec_in_chunk(),
        CellCoord::spec_from_offset_into_chunk(c.spec_chunk(), c.spec_local().0.x as int, c.spec_local().0.y as int) == c,
        chunk_in_range(c.spec_chunk()),
{
}

} // verus!
