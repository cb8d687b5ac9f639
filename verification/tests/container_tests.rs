use pxo::decompress::decompress;
use pxo::error::PxoError;
use pxo::sprite::{Sprite, SpriteOptions};
use pxo::Pxo;

fn compress_block(chunk: &[u8]) -> Vec<u8> {
    zstd::encode_all(chunk, 0).unwrap()
}

/// Builds a container holding `payload`, split into blocks of
/// `block_size` uncompressed bytes, each zstd-compressed.
fn make_container(payload: &[u8], block_size: u32) -> Vec<u8> {
    let total = payload.len() as u32;
    let n = (total / block_size + 1) as usize;
    let mut out = b"GCPF".to_vec();
    out.extend_from_slice(&2u32.to_le_bytes());
    out.extend_from_slice(&block_size.to_le_bytes());
    out.extend_from_slice(&total.to_le_bytes());
    let mut blocks: Vec<Vec<u8>> = Vec::new();
    for i in 0..n {
        let start = (i * block_size as usize).min(payload.len());
        let end = (start + block_size as usize).min(payload.len());
        blocks.push(compress_block(&payload[start..end]));
    }
    for b in &blocks {
        out.extend_from_slice(&(b.len() as u32).to_le_bytes());
    }
    for b in &blocks {
        out.extend_from_slice(b);
    }
    out
}

fn meta_json(frames: usize, cels_per_frame: usize, layers: &[(&str, bool)]) -> String {
    let mut s = String::from("{\"size_x\": 2, \"size_y\": 2, \"fps\": 12.0, \"frames\": [");
    for f in 0..frames {
        if f > 0 {
            s.push(',');
        }
        s.push_str("{\"duration\": 0.25, \"cels\": [");
        for c in 0..cels_per_frame {
            if c > 0 {
                s.push(',');
            }
            s.push_str("{\"opacity\": 1.0}");
        }
        s.push_str("]}");
    }
    s.push_str("], \"layers\": [");
    for (i, (name, vis)) in layers.iter().enumerate() {
        if i > 0 {
            s.push(',');
        }
        s.push_str(&format!("{{\"name\": \"{}\", \"visible\": {}}}", name, vis));
    }
    s.push_str("], \"tags\": [{\"name\": \"walk\", \"from\": 0, \"to\": 1}]}");
    s
}

/// A 2x2 image whose four pixels all hold the given RGBA value.
fn flat_image(px: [u8; 4]) -> Vec<u8> {
    let mut v = Vec::new();
    for _ in 0..4 {
        v.extend_from_slice(&px);
    }
    v
}

#[test]
fn decompress_roundtrip_payload() {
    let payload: Vec<u8> = (0u16..1000).map(|i| (i % 251) as u8).collect();
    let data = make_container(&payload, 256);
    let out = decompress(&data).unwrap();
    assert_eq!(out, payload);
}

#[test]
fn decompress_exact_multiple_has_extra_block() {
    // 512 bytes with a block size of 256: the count formula yields three
    // blocks, the last one empty, and the payload still round-trips.
    let payload = vec![7u8; 512];
    let data = make_container(&payload, 256);
    // magic (4) + mode (4) + sizes (8) + 3 block-length entries.
    let table_entries = 512 / 256 + 1;
    assert_eq!(data[16..16 + 4 * table_entries].len(), 4 * table_entries);
    let out = decompress(&data).unwrap();
    assert_eq!(out, payload);
}

#[test]
fn magic_mismatch_names_both() {
    let payload = b"hello".to_vec();
    let mut data = make_container(&payload, 16);
    data[0..4].copy_from_slice(b"XXXX");
    match decompress(&data) {
        Err(PxoError::UnexpectedMagic(expected, actual)) => {
            assert_eq!(expected, "GCPF");
            assert_eq!(actual, "XXXX");
        },
        other => panic!("expected UnexpectedMagic, got {:?}", other),
    }
}

#[test]
fn magic_invalid_utf8() {
    let payload = b"hello".to_vec();
    let mut data = make_container(&payload, 16);
    data[0..4].copy_from_slice(&[0xFF, 0xFE, 0xFF, 0xFE]);
    assert!(matches!(decompress(&data), Err(PxoError::ReadUtf8)));
}

#[test]
fn unexpected_compression_mode() {
    let payload = b"hello".to_vec();
    let mut data = make_container(&payload, 16);
    data[4..8].copy_from_slice(&3u32.to_le_bytes());
    match decompress(&data) {
        Err(PxoError::UnexpectedCompressionMode(m)) => assert_eq!(m, 3),
        other => panic!("expected UnexpectedCompressionMode, got {:?}", other),
    }
}

#[test]
fn zero_block_size_before_table() {
    // Only the 16 header bytes, no block table at all: the zero block
    // size must be reported before the table is ever read.
    let mut data = b"GCPF".to_vec();
    data.extend_from_slice(&2u32.to_le_bytes());
    data.extend_from_slice(&0u32.to_le_bytes());
    data.extend_from_slice(&100u32.to_le_bytes());
    assert!(matches!(decompress(&data), Err(PxoError::ZeroBlockSize)));
}

#[test]
fn truncated_header_is_read_error() {
    assert!(matches!(decompress(b"GC"), Err(PxoError::ReadFile)));
    assert!(matches!(decompress(b"GCPF\x02\x00"), Err(PxoError::ReadFile)));
}

#[test]
fn corrupt_block_is_read_error() {
    let payload = b"some payload bytes".to_vec();
    let mut data = make_container(&payload, 8);
    // Three blocks; their data starts right after the 12-byte table.
    // Corrupting the first block's frame header breaks decompression.
    let first_block = 16 + 4 * 3;
    for b in &mut data[first_block..first_block + 4] {
        *b ^= 0xA5;
    }
    assert!(matches!(decompress(&data), Err(PxoError::ReadFile)));
}

#[test]
fn load_container_splits_images() {
    let json = meta_json(2, 2, &[("a", true), ("b", true)]);
    let imgs = [
        flat_image([1, 2, 3, 255]),
        flat_image([4, 5, 6, 255]),
        flat_image([7, 8, 9, 255]),
        flat_image([10, 11, 12, 255]),
    ];
    let mut payload = json.as_bytes().to_vec();
    payload.push(b'\n');
    for img in &imgs {
        payload.extend_from_slice(img);
    }
    let data = make_container(&payload, 64);
    let pxo = Pxo::load(&data).unwrap();
    assert_eq!(pxo.meta.width, 2);
    assert_eq!(pxo.meta.height, 2);
    assert_eq!(pxo.meta.fps, 12.0f64.to_bits());
    assert_eq!(pxo.meta.frames.len(), 2);
    assert_eq!(pxo.meta.frames[0].duration, 0.25f64.to_bits());
    assert_eq!(pxo.meta.frames[0].cels.len(), 2);
    assert_eq!(pxo.meta.frames[0].cels[0].image_index, 0);
    assert_eq!(pxo.meta.frames[0].cels[1].image_index, 1);
    assert_eq!(pxo.meta.frames[1].cels[0].image_index, 2);
    assert_eq!(pxo.meta.frames[1].cels[1].image_index, 3);
    assert_eq!(pxo.meta.layers.len(), 2);
    assert_eq!(pxo.meta.layers[0].name, "a");
    assert!(pxo.meta.layers[0].visible);
    assert_eq!(pxo.meta.tags.len(), 1);
    assert_eq!(pxo.meta.tags[0].name, "walk");
    assert_eq!(pxo.meta.tags[0].from, 0);
    assert_eq!(pxo.meta.tags[0].to, 1);
    // One raw image per cel, each exactly width*height*4 bytes, in order.
    assert_eq!(pxo.images.len(), 4);
    for (i, img) in pxo.images.iter().enumerate() {
        assert_eq!(img.width, 2);
        assert_eq!(img.height, 2);
        assert_eq!(img.data.len(), 2 * 2 * 4);
        assert_eq!(img.data, imgs[i]);
    }
}

#[test]
fn missing_fps_is_schema_error() {
    let json = "{\"size_x\": 2, \"size_y\": 2, \"frames\": [], \"layers\": [], \"tags\": []}";
    let mut payload = json.as_bytes().to_vec();
    payload.push(b'\n');
    let data = make_container(&payload, 64);
    assert!(matches!(Pxo::load(&data), Err(PxoError::UnexpectedJson)));
}

#[test]
fn malformed_json_is_json_error() {
    let mut payload = b"{not json at all".to_vec();
    payload.push(b'\n');
    let data = make_container(&payload, 64);
    assert!(matches!(Pxo::load(&data), Err(PxoError::ReadJson)));
}

#[test]
fn load_sprite_end_to_end() {
    // Two layers, one invisible: the loaded sprite's sole frame equals
    // the visible layer's cel.
    let json = meta_json(1, 2, &[("hidden", false), ("shown", true)]);
    let shown = flat_image([9, 9, 9, 255]);
    let mut payload = json.as_bytes().to_vec();
    payload.push(b'\n');
    payload.extend_from_slice(&flat_image([1, 1, 1, 255]));
    payload.extend_from_slice(&shown);
    let data = make_container(&payload, 64);
    let sprite = Sprite::load(&data, SpriteOptions::default()).unwrap();
    assert_eq!(sprite.width, 2);
    assert_eq!(sprite.height, 2);
    assert_eq!(sprite.fps, 12.0f64.to_bits());
    assert_eq!(sprite.images.len(), 1);
    assert_eq!(sprite.images[0].data, shown);
}

#[test]
fn short_pixel_section_is_read_error() {
    let json = meta_json(1, 1, &[("a", true)]);
    let mut payload = json.as_bytes().to_vec();
    payload.push(b'\n');
    payload.extend_from_slice(&[0u8; 7]);  // needs 16 bytes for one 2x2 cel
    let data = make_container(&payload, 64);
    assert!(matches!(Pxo::load(&data), Err(PxoError::ReadFile)));
}
