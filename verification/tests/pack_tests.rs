use pxo::error::PxoError;
use pxo::images::Image;
use pxo::meta::Tag;
use pxo::pack::PackedSprite;
use pxo::sprite::Sprite;

fn numbered_image(w: u32, h: u32, seed: u8) -> Image {
    let mut data = Vec::new();
    for i in 0..(w * h) {
        data.extend_from_slice(&[seed, (i % 256) as u8, 0, 255]);
    }
    Image { width: w, height: h, data }
}

fn make_sprite(w: u32, h: u32, n_frames: usize, seed: u8) -> Sprite {
    Sprite {
        width: w,
        height: h,
        fps: 24.0f64.to_bits(),
        tags: vec![Tag { name: String::from("run"), from: 0, to: 1 }],
        durations: (0..n_frames).map(|i| (0.1 * (i as f64 + 1.0)).to_bits()).collect(),
        images: (0..n_frames).map(|i| numbered_image(w, h, seed.wrapping_add(i as u8))).collect(),
    }
}

#[test]
fn pack_one_sprite_within_bounds() {
    let sprite = make_sprite(8, 8, 2, 1);
    let (packed, atlas) = PackedSprite::pack_sprite(sprite, 64, 64).unwrap();
    assert!(atlas.width <= 64 && atlas.height <= 64);
    assert_eq!(packed.width, 8);
    assert_eq!(packed.height, 8);
    assert_eq!(packed.fps, 24.0f64.to_bits());
    assert_eq!(packed.tags.len(), 1);
    assert_eq!(packed.tags[0].name, "run");
    assert_eq!(packed.frames.len(), 2);
    assert_eq!(packed.frames[0].duration, 0.1f64.to_bits());
    assert_eq!(packed.frames[1].duration, 0.2f64.to_bits());
    for frame in &packed.frames {
        assert!(frame.x_offset + 8 <= atlas.width);
        assert!(frame.y_offset + 8 <= atlas.height);
    }
}

#[test]
fn pack_blits_frame_pixels() {
    let sprite = make_sprite(4, 4, 2, 9);
    let originals: Vec<Vec<u8>> = sprite.images.iter().map(|i| i.data.clone()).collect();
    let (packed, atlas) = PackedSprite::pack_sprite(sprite, 32, 32).unwrap();
    for (f, frame) in packed.frames.iter().enumerate() {
        for yy in 0..4u32 {
            for xx in 0..4u32 {
                let a_idx = (((frame.y_offset + yy) * atlas.width + frame.x_offset + xx) * 4)
                    as usize;
                let s_idx = ((yy * 4 + xx) * 4) as usize;
                assert_eq!(
                    &atlas.data[a_idx..a_idx + 4],
                    &originals[f][s_idx..s_idx + 4],
                    "frame {} pixel ({}, {})",
                    f,
                    xx,
                    yy
                );
            }
        }
    }
}

#[test]
fn pack_many_sprites_grouped_in_order() {
    let sprites = vec![make_sprite(8, 8, 2, 1), make_sprite(4, 4, 3, 50)];
    let (packed, atlas) = PackedSprite::pack_sprites(sprites, 64, 64).unwrap();
    assert_eq!(packed.len(), 2);
    assert_eq!(packed[0].frames.len(), 2);
    assert_eq!(packed[1].frames.len(), 3);
    assert_eq!(packed[0].width, 8);
    assert_eq!(packed[1].width, 4);
    assert_eq!(packed[1].tags[0].name, "run");
    for p in &packed {
        for frame in &p.frames {
            assert!(frame.x_offset + p.width <= atlas.width);
            assert!(frame.y_offset + p.height <= atlas.height);
        }
    }
}

#[test]
fn pack_too_many_fails_whole() {
    // Three sprites of two 50x50 frames each cannot fit a 64x64 bin.
    let sprites = vec![
        make_sprite(50, 50, 2, 1),
        make_sprite(50, 50, 2, 10),
        make_sprite(50, 50, 2, 20),
    ];
    assert!(matches!(
        PackedSprite::pack_sprites(sprites, 64, 64),
        Err(PxoError::RectanglePack)
    ));
}

#[test]
fn pack_empty_batch_gives_empty_atlas() {
    let (packed, atlas) = PackedSprite::pack_sprites(Vec::new(), 64, 64).unwrap();
    assert!(packed.is_empty());
    assert_eq!(atlas.width, 0);
    assert_eq!(atlas.height, 0);
    assert!(atlas.data.is_empty());
}

#[test]
fn atlas_is_trimmed_to_extents() {
    // A single 8x8 frame in a 64x64 bin: the atlas is trimmed to the
    // placement's extent, not the bin size.
    let sprite = make_sprite(8, 8, 1, 3);
    let (packed, atlas) = PackedSprite::pack_sprite(sprite, 64, 64).unwrap();
    assert_eq!(packed.frames.len(), 1);
    assert_eq!(atlas.width, packed.frames[0].x_offset + 8);
    assert_eq!(atlas.height, packed.frames[0].y_offset + 8);
}

#[test]
fn uncovered_atlas_pixels_are_transparent() {
    // Two frames of different sprites leave a corner of the trimmed atlas
    // uncovered; such pixels stay fully transparent.
    let sprites = vec![make_sprite(8, 4, 1, 1), make_sprite(4, 8, 1, 2)];
    let (packed, atlas) = PackedSprite::pack_sprites(sprites, 64, 64).unwrap();
    let mut uncovered = 0;
    for py in 0..atlas.height {
        for px in 0..atlas.width {
            let covered = packed.iter().any(|p| {
                p.frames.iter().any(|fr| {
                    fr.x_offset <= px && px < fr.x_offset + p.width && fr.y_offset <= py && py
                        < fr.y_offset + p.height
                })
            });
            if !covered {
                let idx = ((py * atlas.width + px) * 4) as usize;
                assert_eq!(&atlas.data[idx..idx + 4], &[0, 0, 0, 0]);
                uncovered += 1;
            }
        }
    }
    // The two differently-shaped frames cannot tile their bounding box.
    assert!(uncovered > 0);
}
