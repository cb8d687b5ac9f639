use pxo::images::Image;
use pxo::meta::{Cel, Frame, Layer, Meta, Tag};
use pxo::sprite::{scale_alpha, Sprite, SpriteOptions};
use pxo::Pxo;

fn flat_image(w: u32, h: u32, px: [u8; 4]) -> Image {
    let mut data = Vec::new();
    for _ in 0..(w * h) {
        data.extend_from_slice(&px);
    }
    Image { width: w, height: h, data }
}

/// A well-formed container built by hand: one cel per layer per frame,
/// image indices dense in frame-major order.
fn make_pxo(w: u32, h: u32, layers: Vec<Layer>, frames_opacity: Vec<Vec<f64>>, images: Vec<Image>) -> Pxo {
    let mut idx = 0;
    let frames = frames_opacity
        .into_iter()
        .map(|cels| Frame {
            duration: 0.1f64.to_bits(),
            cels: cels
                .into_iter()
                .map(|op| {
                    let c = Cel { opacity: op.to_bits(), image_index: idx };
                    idx += 1;
                    c
                })
                .collect(),
        })
        .collect();
    let meta = Meta {
        width: w,
        height: h,
        fps: 24.0f64.to_bits(),
        frames,
        layers,
        tags: vec![Tag { name: String::from("idle"), from: 0, to: 0 }],
    };
    Pxo { meta, images }
}

#[test]
fn default_options_apply_everything() {
    let o = SpriteOptions::default();
    assert!(!o.ignore_layer_visibility);
    assert!(!o.ignore_cel_opacity);
}

#[test]
fn scale_alpha_exact_values() {
    let one = 1.0f64.to_bits();
    for a in [0u8, 1, 127, 128, 254, 255] {
        assert_eq!(scale_alpha(one, a), a);
    }
    let half = 0.5f64.to_bits();
    assert_eq!(scale_alpha(half, 255), 127);
    assert_eq!(scale_alpha(half, 100), 50);
    assert_eq!(scale_alpha(0.0f64.to_bits(), 200), 0);
    assert_eq!(scale_alpha((-0.5f64).to_bits(), 200), 0);
    assert_eq!(scale_alpha(2.0f64.to_bits(), 200), 255);
    assert_eq!(scale_alpha(f64::NAN.to_bits(), 200), 0);
    assert_eq!(scale_alpha(f64::INFINITY.to_bits(), 200), 255);
    assert_eq!(scale_alpha(f64::INFINITY.to_bits(), 0), 0);
    assert_eq!(scale_alpha(0.25f64.to_bits(), 201), 50);
}

#[test]
fn single_opaque_layer_is_identity() {
    // Compositing one fully-opaque, visible layer returns the raw cel
    // image bit for bit.
    let img = flat_image(2, 2, [10, 20, 30, 255]);
    let raw = img.data.clone();
    let pxo = make_pxo(
        2,
        2,
        vec![Layer { name: String::from("only"), visible: true }],
        vec![vec![1.0]],
        vec![img],
    );
    let sprite = Sprite::from(pxo, SpriteOptions::default()).unwrap();
    assert_eq!(sprite.images.len(), 1);
    assert_eq!(sprite.images[0].data, raw);
}

#[test]
fn only_middle_layer_visible() {
    // Three layers, only layer 1 visible: the merge must equal merging
    // layer 1 alone, whatever layers 0 and 2 hold.
    let bottom = flat_image(2, 2, [200, 0, 0, 255]);
    let middle = flat_image(2, 2, [0, 200, 0, 255]);
    let top = flat_image(2, 2, [0, 0, 200, 255]);
    let expected = middle.data.clone();
    let pxo = make_pxo(
        2,
        2,
        vec![
            Layer { name: String::from("a"), visible: false },
            Layer { name: String::from("b"), visible: true },
            Layer { name: String::from("c"), visible: false },
        ],
        vec![vec![1.0, 1.0, 1.0]],
        vec![bottom, middle, top],
    );
    let sprite = Sprite::from(pxo, SpriteOptions::default()).unwrap();
    assert_eq!(sprite.images[0].data, expected);
}

#[test]
fn later_cels_still_see_visibility() {
    // Two visible layers with an invisible one between them: both visible
    // cels must be applied, however the middle one was skipped. With
    // opaque pixels the top visible layer wins.
    let bottom = flat_image(2, 2, [200, 0, 0, 255]);
    let middle = flat_image(2, 2, [0, 200, 0, 255]);
    let top = flat_image(2, 2, [0, 0, 200, 255]);
    let expected = top.data.clone();
    let pxo = make_pxo(
        2,
        2,
        vec![
            Layer { name: String::from("a"), visible: true },
            Layer { name: String::from("b"), visible: false },
            Layer { name: String::from("c"), visible: true },
        ],
        vec![vec![1.0, 1.0, 1.0]],
        vec![bottom, middle, top],
    );
    let sprite = Sprite::from(pxo, SpriteOptions::default()).unwrap();
    assert_eq!(sprite.images[0].data, expected);
}

#[test]
fn opacity_scales_alpha() {
    // A single half-opacity cel of solid blue: the blend of the scaled
    // pixel onto a transparent ground keeps the color and the scaled
    // alpha.
    let img = flat_image(1, 1, [0, 0, 255, 255]);
    let pxo = make_pxo(
        1,
        1,
        vec![Layer { name: String::from("only"), visible: true }],
        vec![vec![0.5]],
        vec![img],
    );
    let sprite = Sprite::from(pxo, SpriteOptions::default()).unwrap();
    assert_eq!(sprite.images[0].data, vec![0, 0, 255, 127]);
}

#[test]
fn ignore_cel_opacity_restores_identity() {
    let img = flat_image(1, 1, [5, 6, 7, 255]);
    let raw = img.data.clone();
    let pxo = make_pxo(
        1,
        1,
        vec![Layer { name: String::from("only"), visible: true }],
        vec![vec![0.25]],
        vec![img],
    );
    let opts = SpriteOptions { ignore_layer_visibility: false, ignore_cel_opacity: true };
    let sprite = Sprite::from(pxo, opts).unwrap();
    assert_eq!(sprite.images[0].data, raw);
}

#[test]
fn ignore_visibility_uses_invisible_layers() {
    let bottom = flat_image(1, 1, [1, 0, 0, 255]);
    let top = flat_image(1, 1, [0, 1, 0, 255]);
    let expected = top.data.clone();
    let pxo = make_pxo(
        1,
        1,
        vec![
            Layer { name: String::from("a"), visible: false },
            Layer { name: String::from("b"), visible: false },
        ],
        vec![vec![1.0, 1.0]],
        vec![bottom, top],
    );
    let opts = SpriteOptions { ignore_layer_visibility: true, ignore_cel_opacity: false };
    let sprite = Sprite::from(pxo, opts).unwrap();
    assert_eq!(sprite.images[0].data, expected);
}

#[test]
fn semi_transparent_blend_mixes() {
    // Opaque red under half-transparent green: the result is neither
    // input, and fully opaque.
    let bottom = flat_image(1, 1, [255, 0, 0, 255]);
    let top = flat_image(1, 1, [0, 255, 0, 128]);
    let pxo = make_pxo(
        1,
        1,
        vec![
            Layer { name: String::from("a"), visible: true },
            Layer { name: String::from("b"), visible: true },
        ],
        vec![vec![1.0, 1.0]],
        vec![bottom, top],
    );
    let sprite = Sprite::from(pxo, SpriteOptions::default()).unwrap();
    let px = &sprite.images[0].data;
    // Float rounding in the blend can land one below full opacity.
    assert!(px[3] >= 254);
    assert!(px[0] > 0 && px[0] < 255, "red should be mixed, got {}", px[0]);
    assert!(px[1] > 0 && px[1] < 255, "green should be mixed, got {}", px[1]);
    assert_ne!(&px[..], &[255, 0, 0, 255]);
    assert_ne!(&px[..], &[0, 255, 0, 128]);
}

#[test]
fn sprite_copies_metadata() {
    let img = flat_image(2, 2, [1, 1, 1, 255]);
    let pxo = make_pxo(
        2,
        2,
        vec![Layer { name: String::from("only"), visible: true }],
        vec![vec![1.0]],
        vec![img],
    );
    let sprite = Sprite::from(pxo, SpriteOptions::default()).unwrap();
    assert_eq!(sprite.width, 2);
    assert_eq!(sprite.height, 2);
    // fps comes from the metadata's fps field, not from any other field.
    assert_eq!(sprite.fps, 24.0f64.to_bits());
    assert_eq!(sprite.durations, vec![0.1f64.to_bits()]);
    assert_eq!(sprite.tags.len(), 1);
    assert_eq!(sprite.tags[0].name, "idle");
}

#[test]
fn sprite_from_empty_frames() {
    let pxo = make_pxo(2, 2, vec![], vec![], vec![]);
    let sprite = Sprite::from(pxo, SpriteOptions::default()).unwrap();
    assert_eq!(sprite.images.len(), 0);
    assert_eq!(sprite.durations.len(), 0);
}

#[test]
fn pixel_accessors_roundtrip() {
    let mut img = flat_image(2, 2, [1, 2, 3, 4]);
    assert_eq!(img.get_pixel(3), [1, 2, 3, 4]);
    img.put_pixel(2, [9, 8, 7, 6]);
    assert_eq!(img.get_pixel(2), [9, 8, 7, 6]);
    // The other pixels keep their value.
    assert_eq!(img.get_pixel(0), [1, 2, 3, 4]);
    assert_eq!(img.get_pixel(1), [1, 2, 3, 4]);
    assert_eq!(img.get_pixel(3), [1, 2, 3, 4]);
}
