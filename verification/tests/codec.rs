use std::convert::TryFrom;

use logic_paint::coords::{CellCoord, ChunkCoord, IVec2, CHUNK_CELL_COUNT};
use logic_paint::substrate::buffer::Buffer;
use logic_paint::substrate::codec::{CellV1, ChunksV1, ChunksV2, CodecError, EncodeV1, EncodeV2, Run};
use logic_paint::upc::UPC;

fn sample_buffer() -> Buffer {
    let mut b = Buffer::new();
    b.set_cell(CellCoord::new(1, 1), UPC([1, 2, 0, 0]));
    b.set_cell(CellCoord::new(-1, -1), UPC([3, 0, 0, 0]));
    b.set_cell(CellCoord::new(200, 5), UPC([0, 4, 0, 0]));
    b.set_cell(CellCoord::new(2, 1), UPC([0, 5, 0, 0]));
    b
}

fn sample_coords() -> Vec<CellCoord> {
    vec![
        CellCoord::new(1, 1),
        CellCoord::new(-1, -1),
        CellCoord::new(200, 5),
        CellCoord::new(2, 1),
        CellCoord::new(0, 0),
        CellCoord::new(127, 127),
        CellCoord::new(-128, -128),
    ]
}

#[test]
fn run_decode_expands_runs() {
    let runs = vec![Run { length: 3, data: 5 }, Run { length: 2, data: 0 }, Run { length: 1, data: 7 }];
    let arr = Run::decode(&runs).unwrap();
    assert_eq!(&arr[0..6], &[5, 5, 5, 0, 0, 7]);
    assert!(arr[6..].iter().all(|b| *b == 0));
}

#[test]
fn run_decode_rejects_overlong_runs() {
    let runs = vec![Run { length: CHUNK_CELL_COUNT as u32, data: 1 }, Run { length: 1, data: 2 }];
    assert!(matches!(Run::decode(&runs), Err(CodecError::BufferOverrun(_))));
}

#[test]
fn run_decode_accepts_a_full_chunk() {
    let runs = vec![Run { length: CHUNK_CELL_COUNT as u32, data: 9 }];
    let arr = Run::decode(&runs).unwrap();
    assert!(arr.iter().all(|b| *b == 9));
}

#[test]
fn run_encode_elides_trailing_zeros() {
    let mut arr = vec![0u8; CHUNK_CELL_COUNT];
    arr[0] = 5;
    arr[1] = 5;
    arr[2] = 5;
    arr[10] = 9;
    let runs = Run::encode(arr);
    assert_eq!(runs, vec![Run { length: 3, data: 5 }, Run { length: 7, data: 0 }, Run { length: 1, data: 9 }]);
}

#[test]
fn run_encode_all_zero_is_empty() {
    let runs = Run::encode(vec![0u8; CHUNK_CELL_COUNT]);
    assert!(runs.is_empty());
}

#[test]
fn run_encode_then_decode() {
    let mut arr = vec![0u8; CHUNK_CELL_COUNT];
    for i in 0..CHUNK_CELL_COUNT {
        arr[i] = ((i / 100) % 3) as u8;
    }
    let runs = Run::encode(arr.clone());
    let back = Run::decode(&runs).unwrap();
    assert_eq!(back.to_vec(), arr);
}

#[test]
fn v1_encodes_non_empty_cells() {
    let b = sample_buffer();
    let e = EncodeV1::from(&b);
    let total: usize = e.chunks.iter().map(|c| c.cells.len()).sum();
    assert_eq!(total, 4);
    assert_eq!(e.chunks.len(), 3);
    let origin = e.chunks.iter().find(|c| c.chunk_x == 0 && c.chunk_y == 0).unwrap();
    assert_eq!(origin.cells, vec![CellV1 { upc_idx: 129, flags_1: 1, flags_2: 2 }, CellV1 { upc_idx: 130, flags_1: 0, flags_2: 5 }]);
}

#[test]
fn v1_roundtrip() {
    let b = sample_buffer();
    let decoded = Buffer::try_from(EncodeV1::from(&b)).unwrap();
    for c in sample_coords() {
        assert_eq!(decoded.get_cell(c), b.get_cell(c));
    }
}

#[test]
fn v1_drops_third_and_fourth_bytes() {
    let mut b = Buffer::new();
    b.set_cell(CellCoord::new(3, 4), UPC([1, 2, 3, 4]));
    b.set_cell(CellCoord::new(5, 4), UPC([0, 0, 7, 0]));
    let decoded = Buffer::try_from(EncodeV1::from(&b)).unwrap();
    assert_eq!(decoded.get_cell(CellCoord::new(3, 4)), UPC([1, 2, 0, 0]));
    assert_eq!(decoded.get_cell(CellCoord::new(5, 4)), UPC([0, 0, 0, 0]));
}

#[test]
fn v1_rejects_out_of_chunk_index() {
    let data = EncodeV1 {
        chunks: vec![ChunksV1 {
            chunk_x: 2,
            chunk_y: -1,
            cells: vec![
                CellV1 { upc_idx: 3, flags_1: 1, flags_2: 0 },
                CellV1 { upc_idx: 16384, flags_1: 1, flags_2: 0 },
                CellV1 { upc_idx: 20000, flags_1: 1, flags_2: 0 },
            ],
        }],
    };
    assert!(matches!(
        Buffer::try_from(data),
        Err(CodecError::IndexOutOfBounds { chunk_coord: ChunkCoord(IVec2 { x: 2, y: -1 }), byte_idx: 65536 })
    ));
}

#[test]
fn v1_later_chunk_replaces_earlier() {
    let data = EncodeV1 {
        chunks: vec![
            ChunksV1 { chunk_x: 0, chunk_y: 0, cells: vec![CellV1 { upc_idx: 0, flags_1: 1, flags_2: 0 }] },
            ChunksV1 { chunk_x: 0, chunk_y: 0, cells: vec![CellV1 { upc_idx: 1, flags_1: 2, flags_2: 0 }] },
        ],
    };
    let b = Buffer::try_from(data).unwrap();
    assert_eq!(b.get_cell(CellCoord::new(0, 0)), UPC([0, 0, 0, 0]));
    assert_eq!(b.get_cell(CellCoord::new(1, 0)), UPC([2, 0, 0, 0]));
}

#[test]
fn v2_roundtrip_with_vias() {
    let mut b = sample_buffer();
    b.set_cell(CellCoord::new(7, 7), UPC([1, 4 | 1, 0, 0]));
    b.set_cell(CellCoord::new(0, 0), UPC([2, 4, 0, 0]));
    let e = EncodeV2::from(&b);
    assert_eq!(e.chunks.len(), b.chunks.len());
    assert!(e.is_decodable());
    let decoded = Buffer::try_from_v2(e).unwrap();
    let mut coords = sample_coords();
    coords.push(CellCoord::new(7, 7));
    for c in coords {
        assert_eq!(decoded.get_cell(c), b.get_cell(c));
    }
}

#[test]
fn v2_via_offsets_are_gaps() {
    let mut b = Buffer::new();
    b.set_cell(CellCoord::new(0, 0), UPC([0, 4, 0, 0]));
    b.set_cell(CellCoord::new(3, 0), UPC([0, 5, 0, 0]));
    b.set_cell(CellCoord::new(1, 1), UPC([0, 4, 0, 0]));
    let e = EncodeV2::from(&b);
    assert_eq!(e.chunks[0].via_offsets, vec![0, 3, 126]);
    assert_eq!(e.chunks[0].metal, vec![Run { length: 3, data: 0 }, Run { length: 1, data: 1 }]);
}

#[test]
fn v2_rejects_overlong_layer() {
    let data = EncodeV2 {
        chunks: vec![ChunksV2 {
            chunk_x: 0,
            chunk_y: 0,
            si: vec![Run { length: 20000, data: 1 }],
            metal: vec![],
            via_offsets: vec![],
        }],
    };
    assert!(data.is_decodable());
    assert!(matches!(Buffer::try_from_v2(data), Err(CodecError::BufferOverrun(_))));
}

#[test]
fn v2_via_outside_chunk_is_not_decodable() {
    let data = EncodeV2 {
        chunks: vec![ChunksV2 { chunk_x: 0, chunk_y: 0, si: vec![], metal: vec![], via_offsets: vec![16000, 384] }],
    };
    assert!(!data.is_decodable());
}

#[test]
fn v2_keeps_chunks_and_two_bytes() {
    let mut b = Buffer::new();
    b.set_cell(CellCoord::new(1, 1), UPC([3, 5, 7, 9]));
    b.set_cell(CellCoord::new(-200, 300), UPC([0, 0, 0, 1]));
    let decoded = Buffer::try_from_v2(EncodeV2::from(&b)).unwrap();
    let mut keys: Vec<(i32, i32)> = decoded.chunks.iter().map(|c| (c.chunk_coord.0.x, c.chunk_coord.0.y)).collect();
    keys.sort();
    let mut want: Vec<(i32, i32)> = b.chunks.iter().map(|c| (c.chunk_coord.0.x, c.chunk_coord.0.y)).collect();
    want.sort();
    assert_eq!(keys, want);
    assert_eq!(decoded.get_cell(CellCoord::new(1, 1)), UPC([3, 5, 0, 0]));
    assert_eq!(decoded.get_cell(CellCoord::new(-200, 300)), UPC([0, 0, 0, 0]));
}
