use std::io::Write;

use logic_paint::coords::CellCoord;
use logic_paint::substrate::buffer::Buffer;
use logic_paint::substrate::buffer_serde::{
    from_base64_string, to_base64_string, BrotliBuffer, BrotliChunk, BufferSerdeError, BROTLI_CHANNELS,
};
use logic_paint::upc::UPC;

fn compress(bytes: &[u8]) -> Vec<u8> {
    let mut w = brotli::CompressorWriter::new(Vec::new(), 4096, 7, 22);
    w.write_all(bytes).unwrap();
    w.flush().unwrap();
    w.into_inner()
}

#[test]
fn brotli_roundtrip_keeps_two_bytes() {
    let mut b = Buffer::new();
    b.set_cell(CellCoord::new(1, 1), UPC([1, 2, 3, 4]));
    b.set_cell(CellCoord::new(-300, 7), UPC([5, 0, 0, 0]));
    let bb = b.to_brotli().unwrap();
    assert_eq!(bb.channels as usize, BROTLI_CHANNELS);
    assert_eq!(bb.chunks.len(), 2);
    assert_eq!(bb.chunks[0].cell_count, 1);
    let back = Buffer::from_brotli(bb).unwrap();
    assert_eq!(back.get_cell(CellCoord::new(1, 1)), UPC([1, 2, 0, 0]));
    assert_eq!(back.get_cell(CellCoord::new(-300, 7)), UPC([5, 0, 0, 0]));
    assert_eq!(back.get_cell(CellCoord::new(0, 0)), UPC::default());
    assert_eq!(back.cell_count(), 2);
}

#[test]
fn brotli_short_image_is_rejected() {
    let bb = BrotliBuffer {
        channels: 2,
        chunks: vec![BrotliChunk { chunk_x: 0, chunk_y: 0, cell_count: 0, data: compress(&[1u8; 100]) }],
    };
    assert_eq!(Buffer::from_brotli(bb).err(), Some(BufferSerdeError::ShortRead { expected: 32768, read: 100 }));
}

#[test]
fn brotli_corrupt_data_is_rejected() {
    let bb = BrotliBuffer {
        channels: 2,
        chunks: vec![BrotliChunk { chunk_x: 0, chunk_y: 0, cell_count: 0, data: vec![0xff, 0xff, 0xff, 0xff, 0xff, 0xff] }],
    };
    assert!(matches!(Buffer::from_brotli(bb), Err(BufferSerdeError::Decompress(_))));
}

#[test]
fn brotli_three_channels() {
    let mut image = vec![0u8; 16384 * 3];
    image[0] = 7;
    image[1] = 8;
    image[2] = 9;
    let bb = BrotliBuffer { channels: 3, chunks: vec![BrotliChunk { chunk_x: 1, chunk_y: 0, cell_count: 1, data: compress(&image) }] };
    let b = Buffer::from_brotli(bb).unwrap();
    assert_eq!(b.get_cell(CellCoord::new(128, 0)), UPC([7, 8, 9, 0]));
}

#[test]
fn base64_round_trip_and_rejection() {
    let bytes: Vec<u8> = vec![0, 1, 2, 250, 255];
    let text = to_base64_string(&bytes);
    assert_eq!(text, "AAEC+v8=");
    assert_eq!(from_base64_string(&text), Ok(bytes));
    assert!(matches!(from_base64_string("not base64!"), Err(BufferSerdeError::Base64(_))));
}

#[test]
fn brotli_load_counts_cells_from_the_image() {
    // The stored count says three cells, but the image holds a single non-empty cell.
    let mut image = vec![0u8; 128 * 128 * BROTLI_CHANNELS];
    image[0] = 7;
    let bb = BrotliBuffer {
        channels: BROTLI_CHANNELS as u32,
        chunks: vec![BrotliChunk { chunk_x: 0, chunk_y: 0, cell_count: 3, data: compress(&image) }],
    };
    let b = Buffer::from_brotli(bb).unwrap();
    assert_eq!(b.chunks.len(), 1);
    assert_eq!(b.chunks[0].cell_count, 1);
}
