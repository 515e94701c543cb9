//! Reading through the chunked-source adapter.

use ktx::chunks::ChunkedSource;
use ktx::decode;

#[test]
fn short_reads_stop_at_chunk_boundaries() {
    let chunks = vec![vec![1u8, 2, 3], vec![4, 5, 6, 7, 8], vec![9, 10]];
    let mut source = ChunkedSource::new(chunks);
    // Only 3 bytes remain in the first chunk.
    assert_eq!(source.read(4), vec![1, 2, 3]);
    assert_eq!(source.read(4), vec![4, 5, 6, 7]);
    assert_eq!(source.read(10), vec![8]);
    assert_eq!(source.read(10), vec![9, 10]);
    assert_eq!(source.read(1), Vec::<u8>::new());
}

#[test]
fn read_zero_returns_nothing() {
    let mut source = ChunkedSource::new(vec![vec![1u8, 2]]);
    assert_eq!(source.read(0), Vec::<u8>::new());
    assert_eq!(source.read(2), vec![1, 2]);
}

#[test]
fn empty_chunks_are_skipped() {
    let chunks = vec![Vec::new(), vec![1u8], Vec::new(), Vec::new(), vec![2u8, 3]];
    let mut source = ChunkedSource::new(chunks);
    assert_eq!(source.read(5), vec![1]);
    assert_eq!(source.read(5), vec![2, 3]);
    assert_eq!(source.read(5), Vec::<u8>::new());
}

#[test]
fn read_exact_crosses_boundaries() {
    let chunks = vec![vec![1u8, 2, 3], vec![4], vec![5, 6, 7, 8]];
    let mut source = ChunkedSource::new(chunks);
    assert_eq!(source.read_exact(6).unwrap(), vec![1, 2, 3, 4, 5, 6]);
    // Only 2 bytes remain, so asking for 3 fails and consumes them.
    assert!(source.read_exact(3).is_none());
    assert_eq!(source.read_exact(0).unwrap(), Vec::<u8>::new());
    assert!(source.read_exact(1).is_none());
}

#[test]
fn read_to_end_concatenates_all_chunks() {
    let chunks = vec![vec![1u8, 2], Vec::new(), vec![3, 4, 5]];
    let mut source = ChunkedSource::new(chunks);
    assert_eq!(source.read(1), vec![1]);
    assert_eq!(source.read_to_end(), vec![2, 3, 4, 5]);
    assert_eq!(source.read_to_end(), Vec::<u8>::new());
}

#[test]
fn decode_from_chunked_stream() {
    // Deliver a whole KTX file in 7-byte pieces, as a network source
    // might, and decode what the adapter hands back.
    const MAGIC: [u8; 12] = [
        0xAB, 0x4B, 0x54, 0x58, 0x20, 0x31, 0x31, 0xBB, 0x0D, 0x0A, 0x1A, 0x0A,
    ];
    let mut file = Vec::new();
    file.extend_from_slice(&MAGIC);
    for field in [0x0403_0201u32, 0x1401, 1, 0x1907, 0x8051, 0x1907, 4, 4, 0, 0, 1, 1, 0] {
        file.extend_from_slice(&field.to_le_bytes());
    }
    let image_size: u32 = 48;
    file.extend_from_slice(&image_size.to_le_bytes());
    let body: Vec<u8> = (0..48u8).collect();
    file.extend_from_slice(&body);

    let chunks: Vec<Vec<u8>> = file.chunks(7).map(Vec::from).collect();
    let mut source = ChunkedSource::new(chunks);
    let bytes = source.read_to_end();
    assert_eq!(bytes, file);

    let (info, mut frames) = decode(bytes).unwrap();
    assert_eq!(info.pixel_width, 4);
    assert_eq!(info.number_of_mipmap_levels, 1);
    let (frame, buf) = frames.next().unwrap().unwrap();
    assert_eq!(frame.level, 0);
    assert_eq!(frame.pixel_width, 4);
    assert_eq!(buf, body);
    assert!(frames.next().is_none());
}
