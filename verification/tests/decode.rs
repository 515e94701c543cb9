//! End-to-end decoding of synthetic KTX files.

use ktx::decode;
use ktx::error::Error;
use ktx::Decoder;

const GL_UNSIGNED_BYTE: u32 = 0x1401;
const GL_RGB: u32 = 0x1907;
const GL_RGB8: u32 = 0x8051;

const MAGIC: [u8; 12] = [
    0xAB, 0x4B, 0x54, 0x58, 0x20, 0x31, 0x31, 0xBB, 0x0D, 0x0A, 0x1A, 0x0A,
];
const ENDIANNESS: u32 = 0x0403_0201;

/// Build a 64-byte header followed by the key/value block.
#[allow(clippy::too_many_arguments)]
fn header_bytes(
    gl_type: u32,
    gl_type_size: u32,
    gl_format: u32,
    gl_internal_format: u32,
    gl_base_internal_format: u32,
    width: u32,
    height: u32,
    depth: u32,
    array_elements: u32,
    faces: u32,
    mipmap_levels: u32,
    key_value: &[u8],
) -> Vec<u8> {
    let mut out = Vec::new();
    out.extend_from_slice(&MAGIC);
    for field in [
        ENDIANNESS,
        gl_type,
        gl_type_size,
        gl_format,
        gl_internal_format,
        gl_base_internal_format,
        width,
        height,
        depth,
        array_elements,
        faces,
        mipmap_levels,
        key_value.len() as u32,
    ] {
        out.extend_from_slice(&field.to_le_bytes());
    }
    out.extend_from_slice(key_value);
    out
}

/// A simple RGB8 header: no array, one face, as many levels as asked.
fn rgb_header(width: u32, height: u32, levels: u32) -> Vec<u8> {
    header_bytes(
        GL_UNSIGNED_BYTE,
        1,
        GL_RGB,
        GL_RGB8,
        GL_RGB,
        width,
        height,
        0,
        0,
        1,
        levels,
        &[],
    )
}

#[test]
fn rgb_single_level() {
    // 128x128 RGB8, one level: rows padded to 4 bytes, so the level holds
    // ((128*3 + 3) / 4) * 4 * 128 bytes.
    let image_size: u32 = ((128 * 3 + 3) / 4) * 4 * 128;
    let mut data = rgb_header(128, 128, 1);
    data.extend_from_slice(&image_size.to_le_bytes());
    let body: Vec<u8> = (0..image_size).map(|i| (i % 251) as u8).collect();
    data.extend_from_slice(&body);

    let (info, mut frames) = decode(data).unwrap();
    assert_eq!(info.gl_type, GL_UNSIGNED_BYTE);
    assert_eq!(info.gl_type_size, 1);
    assert_eq!(info.gl_format, GL_RGB);
    assert_eq!(info.gl_internal_format, GL_RGB8);
    assert_eq!(info.gl_base_internal_format, GL_RGB);
    assert_eq!(info.pixel_width, 128);
    assert_eq!(info.pixel_height, 128);
    assert_eq!(info.pixel_depth, 0);
    assert_eq!(info.number_of_array_elements, 0);
    assert_eq!(info.number_of_faces, 1);
    assert_eq!(info.number_of_mipmap_levels, 1);

    let (frame, buf) = frames.next().unwrap().unwrap();
    assert_eq!(frame.level, 0);
    assert_eq!(frame.layer, 0);
    assert_eq!(frame.face, 0);
    assert_eq!(frame.pixel_width, 128);
    assert_eq!(frame.pixel_height, 128);
    assert_eq!(frame.pixel_depth, 1);
    assert_eq!(buf.len(), image_size as usize);
    assert_eq!(buf, body);
    assert!(frames.next().is_none());
    assert!(frames.next().is_none());
}

#[test]
fn decoder_matches_decode() {
    let image_size: u32 = 16;
    let mut data = rgb_header(2, 2, 1);
    data.extend_from_slice(&image_size.to_le_bytes());
    data.extend_from_slice(&[7u8; 16]);

    let decoder = Decoder::new(data);
    let (info, mut frames) = decoder.read().unwrap();
    assert_eq!(info.pixel_width, 2);
    let (frame, buf) = frames.next().unwrap().unwrap();
    assert_eq!(frame.level, 0);
    assert_eq!(buf, vec![7u8; 16]);
    assert!(frames.next().is_none());
}

#[test]
fn cubemap_six_faces() {
    // A non-array cubemap at 512x512: image_size denotes one face, not
    // the whole level (the accounting exception).
    let face_size: u32 = 16;
    let mut data = header_bytes(0, 1, 0, 0x9274, GL_RGB, 512, 512, 0, 0, 6, 1, &[]);
    data.extend_from_slice(&face_size.to_le_bytes());
    let mut faces_bytes = Vec::new();
    for face in 0..6u8 {
        let body = vec![face + 1; face_size as usize];
        faces_bytes.push(body.clone());
        data.extend_from_slice(&body);
    }

    let (info, mut frames) = decode(data).unwrap();
    assert_eq!(info.number_of_faces, 6);
    assert_eq!(info.number_of_array_elements, 0);

    for face in 0..6u32 {
        let (frame, buf) = frames.next().unwrap().unwrap();
        assert_eq!(frame.level, 0);
        assert_eq!(frame.layer, 0);
        assert_eq!(frame.face, face);
        assert_eq!(frame.pixel_width, 512);
        assert_eq!(frame.pixel_height, 512);
        assert_eq!(frame.pixel_depth, 1);
        assert_eq!(buf.len(), face_size as usize);
        assert_eq!(buf, faces_bytes[face as usize]);
    }
    assert!(frames.next().is_none());
}

#[test]
fn array_mipmap_order() {
    // A 7-layer, 9-level, single-face array at 256x256: 63 frames,
    // level-major then layer, each layer image_size / 7 bytes, dimensions
    // halving with a floor of 1.
    let layers: u32 = 7;
    let levels: u32 = 9;
    let layer_size: u32 = 4;
    let image_size: u32 = layers * layer_size;
    let mut data = header_bytes(0, 1, 0, 0x8A57, GL_RGB, 256, 256, 0, layers, 1, levels, &[]);
    for level in 0..levels {
        data.extend_from_slice(&image_size.to_le_bytes());
        for layer in 0..layers {
            data.extend_from_slice(&[(16 * level + layer) as u8; 4]);
        }
    }

    let (info, mut frames) = decode(data).unwrap();
    assert_eq!(info.number_of_array_elements, 7);
    assert_eq!(info.number_of_mipmap_levels, 9);

    let mut count = 0;
    for level in 0..levels {
        let dim = std::cmp::max(1, 256 >> level);
        for layer in 0..layers {
            let (frame, buf) = frames.next().unwrap().unwrap();
            assert_eq!(frame.level, level);
            assert_eq!(frame.layer, layer);
            assert_eq!(frame.face, 0);
            assert_eq!(frame.pixel_width, dim);
            assert_eq!(frame.pixel_height, dim);
            assert_eq!(frame.pixel_depth, 1);
            assert_eq!(buf.len(), (image_size / layers) as usize);
            assert_eq!(buf, vec![(16 * level + layer) as u8; 4]);
            count += 1;
        }
    }
    assert_eq!(count, 63);
    assert!(frames.next().is_none());
}

#[test]
fn read_all_yields_every_frame() {
    // 3 levels, 2 layers, 1 face: 6 frames, level-major then layer.
    let layers: u32 = 2;
    let levels: u32 = 3;
    let image_size: u32 = 8;
    let mut data = header_bytes(0, 1, 0, 0, 0, 16, 16, 0, layers, 1, levels, &[]);
    for level in 0..levels {
        data.extend_from_slice(&image_size.to_le_bytes());
        for layer in 0..layers {
            data.extend_from_slice(&[(10 * level + layer) as u8; 4]);
        }
    }
    let (_info, mut frames) = decode(data).unwrap();
    let all = frames.read_all().unwrap();
    assert_eq!(all.len(), 6);
    for (i, (frame, buf)) in all.iter().enumerate() {
        assert_eq!(frame.level, i as u32 / 2);
        assert_eq!(frame.layer, i as u32 % 2);
        assert_eq!(frame.face, 0);
        assert_eq!(*buf, vec![(10 * (i as u32 / 2) + i as u32 % 2) as u8; 4]);
    }
    assert!(frames.next().is_none());
}

#[test]
fn read_all_reports_truncation() {
    let mut data = rgb_header(8, 8, 2);
    data.extend_from_slice(&8u32.to_le_bytes());
    data.extend_from_slice(&[1u8; 8]);
    // The second level's size field is missing.
    let (_info, mut frames) = decode(data).unwrap();
    assert!(matches!(frames.read_all(), Err(Error::Truncated)));
}

#[test]
fn level_round_trip() {
    // Concatenating a level's buffers in yield order reproduces the
    // level's bytes as they lie in the file.
    let layers: u32 = 2;
    let image_size: u32 = 8;
    let mut data = header_bytes(0, 1, 0, 0, 0, 4, 4, 0, layers, 1, 1, &[]);
    data.extend_from_slice(&image_size.to_le_bytes());
    let level_bytes: Vec<u8> = vec![10, 11, 12, 13, 20, 21, 22, 23];
    data.extend_from_slice(&level_bytes);

    let (_info, mut frames) = decode(data).unwrap();
    let mut concat = Vec::new();
    while let Some(item) = frames.next() {
        let (_frame, buf) = item.unwrap();
        concat.extend_from_slice(&buf);
    }
    assert_eq!(concat, level_bytes);
}

#[test]
fn zero_magic_rejected() {
    // All-zero magic bytes: InvalidFormat carrying the observed bytes,
    // and no frames at all.
    let data = vec![0u8; 64];
    match decode(data) {
        Err(Error::InvalidFormat(observed)) => assert_eq!(observed, vec![0u8; 12]),
        other => panic!("expected InvalidFormat, got {:?}", other.map(|_| ())),
    }
}

#[test]
fn zero_mipmap_levels_rejected() {
    let mut data = rgb_header(8, 8, 0);
    data.extend_from_slice(&[0u8; 16]);
    match decode(data) {
        Err(Error::InvalidNumberOfMipmapLevels(v)) => assert_eq!(v, 0),
        other => panic!("expected InvalidNumberOfMipmapLevels, got {:?}", other.map(|_| ())),
    }
}

#[test]
fn wrong_endianness_rejected() {
    let mut data = rgb_header(8, 8, 1);
    // Overwrite the sentinel with its byte-swapped form.
    data[12..16].copy_from_slice(&0x0102_0304u32.to_le_bytes());
    match decode(data) {
        Err(Error::MismatchedEndianness(expected, actual)) => {
            assert_eq!(expected, ENDIANNESS);
            assert_eq!(actual, 0x0102_0304);
        },
        other => panic!("expected MismatchedEndianness, got {:?}", other.map(|_| ())),
    }
}

#[test]
fn endianness_checked_before_level_count() {
    // Wrong sentinel and a zero level count together: the sentinel is
    // judged first.
    let mut data = rgb_header(8, 8, 0);
    data[12..16].copy_from_slice(&0x0102_0304u32.to_le_bytes());
    match decode(data) {
        Err(Error::MismatchedEndianness(expected, actual)) => {
            assert_eq!(expected, ENDIANNESS);
            assert_eq!(actual, 0x0102_0304);
        },
        other => panic!("expected MismatchedEndianness, got {:?}", other.map(|_| ())),
    }
}

#[test]
fn unaligned_key_value_length_rejected() {
    // A metadata length that is not a multiple of 4 is treated as the
    // same endianness failure class.
    let data = header_bytes(0, 1, 0, 0, 0, 8, 8, 0, 0, 1, 1, &[0u8; 6]);
    match decode(data) {
        Err(Error::MismatchedEndianness(expected, actual)) => {
            assert_eq!(expected, ENDIANNESS);
            assert_eq!(actual, ENDIANNESS);
        },
        other => panic!("expected MismatchedEndianness, got {:?}", other.map(|_| ())),
    }
}

#[test]
fn truncated_header_rejected() {
    assert!(matches!(decode(vec![0xAB; 10]), Err(Error::Truncated)));
}

#[test]
fn truncated_key_value_block_rejected() {
    // The header declares 8 metadata bytes but only 4 are present.
    let mut data = rgb_header(8, 8, 1);
    data[60..64].copy_from_slice(&8u32.to_le_bytes());
    data.extend_from_slice(&[0u8; 4]);
    assert!(matches!(decode(data), Err(Error::Truncated)));
}

#[test]
fn truncated_face_fails_sequence() {
    let mut data = rgb_header(8, 8, 1);
    data.extend_from_slice(&8u32.to_le_bytes());
    data.extend_from_slice(&[1u8; 4]);
    let (_info, mut frames) = decode(data).unwrap();
    assert!(matches!(frames.next(), Some(Err(Error::Truncated))));
    assert!(frames.next().is_none());
}

#[test]
fn missing_image_size_fails_sequence() {
    let data = rgb_header(8, 8, 1);
    let (_info, mut frames) = decode(data).unwrap();
    assert!(matches!(frames.next(), Some(Err(Error::Truncated))));
    assert!(frames.next().is_none());
}

#[test]
fn unaligned_image_size_fails_sequence() {
    let mut data = rgb_header(8, 8, 1);
    data.extend_from_slice(&3u32.to_le_bytes());
    data.extend_from_slice(&[0u8; 3]);
    let (_info, mut frames) = decode(data).unwrap();
    match frames.next() {
        Some(Err(Error::MalformedFrameLayout(size))) => assert_eq!(size, 3),
        other => panic!("expected MalformedFrameLayout, got {:?}", other.map(|r| r.map(|_| ()))),
    }
    assert!(frames.next().is_none());
}

#[test]
fn indivisible_image_size_fails_sequence() {
    // 3 layers cannot share 4 bytes evenly.
    let mut data = header_bytes(0, 1, 0, 0, 0, 8, 8, 0, 3, 1, 1, &[]);
    data.extend_from_slice(&4u32.to_le_bytes());
    data.extend_from_slice(&[0u8; 4]);
    let (_info, mut frames) = decode(data).unwrap();
    match frames.next() {
        Some(Err(Error::MalformedFrameLayout(size))) => assert_eq!(size, 4),
        other => panic!("expected MalformedFrameLayout, got {:?}", other.map(|r| r.map(|_| ()))),
    }
    assert!(frames.next().is_none());
}

#[test]
fn mipmap_size_halves_with_floor() {
    let data = rgb_header(256, 64, 9);
    let (info, _frames) = decode(data).unwrap();
    assert_eq!(info.mipmap_size(0), (256, 64, 1));
    assert_eq!(info.mipmap_size(3), (32, 8, 1));
    assert_eq!(info.mipmap_size(7), (2, 1, 1));
    assert_eq!(info.mipmap_size(8), (1, 1, 1));
    assert_eq!(info.mipmap_size(40), (1, 1, 1));
}
