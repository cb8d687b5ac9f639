use vstd::prelude::*;

use crate::error::PxoError;
use crate::images::Image;
use crate::meta::{Cel, Layer, Tag};
use crate::Pxo;
use image::Pixel;

verus! {

/// The bit pattern of the 64-bit float `1.0`: the alpha multiplier used
/// when cel opacity is ignored.
pub open spec fn one_bits() -> u64 {
    0x3FF0_0000_0000_0000u64
}

/// A fully transparent pixel.
pub open spec fn transparent_px() -> Seq<u8> {
    seq![0u8, 0u8, 0u8, 0u8]
}

/// An alpha byte scaled by an opacity given as the bit pattern of a 64-bit
/// float: the exact real product `opacity * alpha` truncated toward zero
/// and saturated to `0..=255`. A NaN, negative or zero opacity yields 0, an
/// opacity of at least `256 / alpha` yields 255.
pub open spec fn scaled_alpha_spec(bits: u64, alpha: u8) -> u8 {
    let e = (bits >> 52u64) & 0x7FFu64;
    let fr = bits & 0xF_FFFF_FFFF_FFFFu64;
    if e == 0x7FF {
        // Infinities and NaNs.
        if fr != 0 {
            0u8
        } else if (bits >> 63u64) == 1u64 {
            0u8
        } else if alpha == 0 {
            0u8
        } else {
            255u8
        }
    } else if (bits >> 63u64) == 1u64 {
        // Negative values truncate to zero.
        0u8
    } else if e == 0 {
        // Subnormals: the product is below one.
        0u8
    } else if e >= 1075 {
        // The value is no less than 2^52: everything saturates.
        if alpha == 0 {
            0u8
        } else {
            255u8
        }
    } else {
        // alpha * (2^52 + fr) * 2^(e - 1075), truncated.
        let prod = ((alpha as u64) * (fr + 0x10_0000_0000_0000)) as u64;
        let shift = (1075 - e) as u64;
        if shift >= 61 {
            0u8
        } else {
            let v = prod >> shift;
            if v > 255 {
                255u8
            } else {
                v as u8
            }
        }
    }
}

/// Scales an alpha byte by an opacity held as 64-bit float bits.
pub fn scale_alpha(bits: u64, alpha: u8) -> (r: u8)
    ensures
        r == scaled_alpha_spec(bits, alpha),
{
    let e: u64 = (bits >> 52u64) & 0x7FF;
    let fr: u64 = bits & 0xF_FFFF_FFFF_FFFF;
    if e == 0x7FF {
        if fr != 0 {
            0
        } else if (bits >> 63u64) == 1 {
            0
        } else if alpha == 0 {
            0
        } else {
            255
        }
    } else if (bits >> 63u64) == 1 {
        0
    } else if e == 0 {
        0
    } else if e >= 1075 {
        if alpha == 0 {
            0
        } else {
            255
        }
    } else {
        proof {
            assert(fr < 0x10_0000_0000_0000) by (bit_vector)
                requires
                    fr == bits & 0xF_FFFF_FFFF_FFFFu64,
            ;
            assert((alpha as u64) * (fr + 0x10_0000_0000_0000) < 0x8000_0000_0000_0000)
                by (nonlinear_arith)
                requires
                    alpha < 256,
                    fr < 0x10_0000_0000_0000,
            ;
        }
        let prod: u64 = (alpha as u64) * (fr + 0x10_0000_0000_0000);
        let shift: u64 = 1075 - e;
        if shift >= 61 {
            0
        } else {
            let v: u64 = prod >> shift;
            if v > 255 {
                255
            } else {
                v as u8
            }
        }
    }
}

/// Scaling by an opacity of exactly `1.0` leaves every alpha unchanged.
pub proof fn lemma_scaled_alpha_one(alpha: u8)
    ensures
        scaled_alpha_spec(0x3FF0_0000_0000_0000u64, alpha) == alpha,
{
    assert((0x3FF0_0000_0000_0000u64 >> 52u64) & 0x7FFu64 == 1023u64) by (bit_vector);
    assert(0x3FF0_0000_0000_0000u64 >> 63u64 == 0u64) by (bit_vector);
    assert(0x3FF0_0000_0000_0000u64 & 0xF_FFFF_FFFF_FFFFu64 == 0u64) by (bit_vector);
    let a64 = alpha as u64;
    assert(a64 * 0x10_0000_0000_0000 < 0x1_0000_0000_0000_0000) by (nonlinear_arith)
        requires
            a64 < 256,
    ;
    let prod = (a64 * 0x10_0000_0000_0000) as u64;
    vstd::arithmetic::power2::lemma2_to64_rest();
    vstd::bits::lemma_u64_shr_is_div(prod, 52);
    assert(prod == 0x10_0000_0000_0000 * a64) by (nonlinear_arith)
        requires
            prod == a64 * 0x10_0000_0000_0000,
    ;
    vstd::arithmetic::div_mod::lemma_div_multiples_vanish(a64 as int, 0x10_0000_0000_0000);
    assert(prod >> 52u64 == a64);
}

/// What `image`'s src-over alpha compositing makes of a destination and a
/// source pixel.
pub uninterp spec fn blend_of(t: Seq<u8>, s: Seq<u8>) -> Seq<u8>;

/// Relies on `image::Pixel::blend` for `Rgba<u8>`: standard src-over alpha
/// compositing of one source pixel onto one destination pixel, a pure
/// function of the two pixels. Its source leaves the destination unchanged
/// when the source alpha is 0 and replaces it when the source alpha is 255.
#[verifier::external_body]
fn blend_px(t: [u8; 4], s: [u8; 4]) -> (r: [u8; 4])
    ensures
        r@ == blend_of(t@, s@),
        s@[3] == 0 ==> r@ == t@,
        s@[3] == 255 ==> r@ == s@,
{
    let mut px = image::Rgba(t);
    px.blend(&image::Rgba(s));
    px.0
}

/// Controls how layers are merged down into a [`Sprite`].
#[derive(Clone, Copy, Debug)]
pub struct SpriteOptions {
    /// Merge every layer, the ones marked invisible included.
    pub ignore_layer_visibility: bool,
    /// Treat every cel as fully opaque.
    pub ignore_cel_opacity: bool,
}

impl Default for SpriteOptions {
    /// Both flags off: visibility honoured, opacity applied.
    fn default() -> (r: SpriteOptions)
        ensures
            !r.ignore_layer_visibility,
            !r.ignore_cel_opacity,
    {
        SpriteOptions { ignore_layer_visibility: false, ignore_cel_opacity: false }
    }
}

/// Whether the cel at layer index `k` takes part in the merge: a pure
/// membership test, evaluated independently for every cel.
pub open spec fn spec_used(layers: Seq<Layer>, k: int, ignore_visibility: bool) -> bool {
    ignore_visibility || (0 <= k < layers.len() && layers[k].visible)
}

/// The alpha multiplier applied to the cel at index `k`.
pub open spec fn spec_mult(cels: Seq<Cel>, k: int, ignore_opacity: bool) -> u64 {
    if ignore_opacity {
        one_bits()
    } else {
        cels[k].opacity
    }
}

/// Pixel `p` of `img` with its alpha scaled by `mult` and its color
/// channels passed through.
pub open spec fn spec_scaled_pixel(img: Image, p: int, mult: u64) -> Seq<u8> {
    seq![
        img.spec_pixel(p)[0],
        img.spec_pixel(p)[1],
        img.spec_pixel(p)[2],
        scaled_alpha_spec(mult, img.spec_pixel(p)[3]),
    ]
}

/// The value of pixel `p` of frame `f` after merging the first `k` cels,
/// bottom layer first: a transparent start, each used cel alpha-blended on
/// top, unused cels skipped.
pub open spec fn spec_composite(pxo: Pxo, f: int, k: int, p: int, opts: SpriteOptions) -> Seq<u8>
    decreases k,
{
    if k <= 0 {
        transparent_px()
    } else {
        let prev = spec_composite(pxo, f, k - 1, p, opts);
        let cels = pxo.meta.frames@[f].cels@;
        if spec_used(pxo.meta.layers@, k - 1, opts.ignore_layer_visibility) {
            blend_of(
                prev,
                spec_scaled_pixel(
                    pxo.images@[cels[k - 1].image_index as int],
                    p,
                    spec_mult(cels, k - 1, opts.ignore_cel_opacity),
                ),
            )
        } else {
            prev
        }
    }
}

/// When no cel among the first `k` is used, the merge leaves the
/// transparent start untouched.
pub proof fn lemma_composite_none_used(pxo: Pxo, f: int, k: int, p: int, opts: SpriteOptions)
    requires
        0 <= k,
        forall|j: int| 0 <= j < k ==> !spec_used(pxo.meta.layers@, j, opts.ignore_layer_visibility),
    ensures
        spec_composite(pxo, f, k, p, opts) == transparent_px(),
    decreases k,
{
    if k > 0 {
        lemma_composite_none_used(pxo, f, k - 1, p, opts);
    }
}

/// Visibility correctness: when exactly one of the first `k` cels is used,
/// the merged pixel equals that cel blended alone onto a transparent
/// background — the use decision of a cel never depends on how the other
/// cels were evaluated.
pub proof fn lemma_composite_single_used(
    pxo: Pxo,
    f: int,
    k: int,
    l: int,
    p: int,
    opts: SpriteOptions,
)
    requires
        0 <= l < k,
        spec_used(pxo.meta.layers@, l, opts.ignore_layer_visibility),
        forall|j: int|
            0 <= j < k && j != l ==> !spec_used(pxo.meta.layers@, j, opts.ignore_layer_visibility),
    ensures
        spec_composite(pxo, f, k, p, opts) == blend_of(
            transparent_px(),
            spec_scaled_pixel(
                pxo.images@[pxo.meta.frames@[f].cels@[l].image_index as int],
                p,
                spec_mult(pxo.meta.frames@[f].cels@, l, opts.ignore_cel_opacity),
            ),
        ),
    decreases k,
{
    if k - 1 == l {
        lemma_composite_none_used(pxo, f, l, p, opts);
    } else {
        lemma_composite_single_used(pxo, f, k - 1, l, p, opts);
    }
}

/// An opaque cel covers everything beneath it: wherever a used cel's
/// scaled alpha is 255, the merge of the cels up to and including it is
/// exactly that cel's scaled pixel, whatever the lower cels held.
pub open spec fn spec_opaque_cel_tops(pxo: Pxo, f: int, opts: SpriteOptions) -> bool {
    let cels = pxo.meta.frames@[f].cels@;
    forall|k: int, p: int|
        0 <= k < cels.len() && 0 <= p < pxo.meta.width * pxo.meta.height && spec_used(
            pxo.meta.layers@,
            k,
            opts.ignore_layer_visibility,
        ) && (#[trigger] spec_scaled_pixel(
            pxo.images@[cels[k].image_index as int],
            p,
            spec_mult(cels, k, opts.ignore_cel_opacity),
        ))[3] == 255 ==> spec_composite(pxo, f, k + 1, p, opts) == spec_scaled_pixel(
            pxo.images@[cels[k].image_index as int],
            p,
            spec_mult(cels, k, opts.ignore_cel_opacity),
        )
}

/// Every pixel of `img` is either fully opaque or entirely zero.
pub open spec fn opaque_or_blank(img: Image) -> bool {
    forall|p: int|
        0 <= p < img.width * img.height ==> (#[trigger] img.spec_pixel(p))[3] == 255
            || img.spec_pixel(p) == transparent_px()
}

/// Frame `f` consists of a single cel, used, with an effective alpha
/// multiplier of exactly one, whose image is opaque-or-blank everywhere.
pub open spec fn single_opaque_visible(pxo: Pxo, f: int, opts: SpriteOptions) -> bool {
    &&& pxo.meta.frames@[f].cels@.len() == 1
    &&& spec_used(pxo.meta.layers@, 0, opts.ignore_layer_visibility)
    &&& spec_mult(pxo.meta.frames@[f].cels@, 0, opts.ignore_cel_opacity) == one_bits()
    &&& opaque_or_blank(pxo.images@[pxo.meta.frames@[f].cels@[0].image_index as int])
}

/// Images of equal dimensions whose every pixel agrees hold the same
/// bytes.
proof fn lemma_pixels_eq_data_eq(a: Image, b: Image)
    requires
        a.wf(),
        b.wf(),
        a.width == b.width,
        a.height == b.height,
        forall|p: int|
            0 <= p < a.width * a.height ==> #[trigger] a.spec_pixel(p) == b.spec_pixel(p),
    ensures
        a.data@ == b.data@,
{
    assert forall|j: int| 0 <= j < a.data@.len() implies a.data@[j] == b.data@[j] by {
        let p = j / 4;
        let off = j % 4;
        vstd::arithmetic::div_mod::lemma_fundamental_div_mod(j, 4);
        assert(0 <= p < a.width * a.height);
        assert(a.spec_pixel(p)[off] == a.data@[j]);
        assert(b.spec_pixel(p)[off] == b.data@[j]);
    }
    assert(a.data@ =~= b.data@);
}

/// One full-image blending pass: blends `src`, its alpha scaled by `mult`,
/// onto `acc`, returning the new pixel bytes.
fn blend_pass(acc: &Image, src: &Image, mult: u64) -> (r: Vec<u8>)
    requires
        acc.wf(),
        src.wf(),
        src.width == acc.width,
        src.height == acc.height,
    ensures
        r@.len() == acc.data@.len(),
        forall|p: int|
            0 <= p < acc.width * acc.height ==> #[trigger] r@.subrange(4 * p, 4 * p + 4)
                == blend_of(acc.spec_pixel(p), spec_scaled_pixel(*src, p, mult)),
        forall|p: int|
            0 <= p < acc.width * acc.height && acc.spec_pixel(p) == transparent_px() && mult
                == one_bits() && (src.spec_pixel(p)[3] == 255 || src.spec_pixel(p)
                == transparent_px()) ==> #[trigger] r@.subrange(4 * p, 4 * p + 4)
                == src.spec_pixel(p),
        forall|p: int|
            0 <= p < acc.width * acc.height && spec_scaled_pixel(*src, p, mult)[3] == 255
                ==> #[trigger] r@.subrange(4 * p, 4 * p + 4) == spec_scaled_pixel(*src, p, mult),
{
    let ghost wh = acc.width * acc.height;
    proof {
        vstd::arithmetic::div_mod::lemma_div_multiples_vanish(wh as int, 4);
        assert(4 * wh == wh * 4) by (nonlinear_arith);
    }
    let acc_len: usize = acc.data.len();
    let npix: usize = acc_len / 4;
    assert(npix == wh);
    let mut out: Vec<u8> = Vec::new();
    let mut p: usize = 0;
    while p < npix
        invariant
            acc_len == acc.data@.len(),
            4 * npix == acc_len,
            acc.wf(),
            src.wf(),
            src.width == acc.width,
            src.height == acc.height,
            npix == acc.width * acc.height,
            p <= npix,
            out@.len() == 4 * p,
            forall|q: int|
                0 <= q < p ==> #[trigger] out@.subrange(4 * q, 4 * q + 4) == blend_of(
                    acc.spec_pixel(q),
                    spec_scaled_pixel(*src, q, mult),
                ),
            forall|q: int|
                0 <= q < p && acc.spec_pixel(q) == transparent_px() && mult == one_bits() && (
                src.spec_pixel(q)[3] == 255 || src.spec_pixel(q) == transparent_px()) ==> (
                #[trigger] out@.subrange(4 * q, 4 * q + 4)) == src.spec_pixel(q),
            forall|q: int|
                0 <= q < p && spec_scaled_pixel(*src, q, mult)[3] == 255 ==> (
                #[trigger] out@.subrange(4 * q, 4 * q + 4)) == spec_scaled_pixel(*src, q, mult),
        decreases npix - p,
    {
        let idx: usize = 4 * p;
        let t: [u8; 4] = [acc.data[idx], acc.data[idx + 1], acc.data[idx + 2], acc.data[idx + 3]];
        let src_alpha: u8 = src.data[idx + 3];
        let sa: u8 = scale_alpha(mult, src_alpha);
        let s: [u8; 4] = [src.data[idx], src.data[idx + 1], src.data[idx + 2], sa];
        proof {
            assert(t@ =~= acc.spec_pixel(p as int));
            assert(s@ =~= spec_scaled_pixel(*src, p as int, mult));
        }
        let b = blend_px(t, s);
        let ghost out0 = out@;
        out.push(b[0]);
        out.push(b[1]);
        out.push(b[2]);
        out.push(b[3]);
        proof {
            assert(out@ =~= out0 + b@);
            assert(out@.subrange(4 * p as int, 4 * p as int + 4) =~= b@);
            assert forall|q: int| 0 <= q < p implies #[trigger] out@.subrange(4 * q, 4 * q + 4)
                =~= out0.subrange(4 * q, 4 * q + 4) by {}
            if mult == one_bits() {
                lemma_scaled_alpha_one(src_alpha);
                if src.spec_pixel(p as int) == transparent_px() {
                    assert(s@ =~= src.spec_pixel(p as int));
                }
                if src.spec_pixel(p as int)[3] == 255 {
                    assert(s@ =~= src.spec_pixel(p as int));
                }
            }
        }
        p = p + 1;
    }
    out
}

/// `img` is the merge of frame `f`: the metadata's dimensions, and every
/// pixel the bottom-to-top blend of the frame's used cels.
pub open spec fn spec_merged(pxo: Pxo, f: int, opts: SpriteOptions, img: Image) -> bool {
    &&& img.width == pxo.meta.width
    &&& img.height == pxo.meta.height
    &&& img.wf()
    &&& forall|p: int|
        0 <= p < pxo.meta.width * pxo.meta.height ==> #[trigger] img.spec_pixel(p)
            == spec_composite(pxo, f, pxo.meta.frames@[f].cels@.len() as int, p, opts)
}

/// Merges every cel of one frame into a single image, bottom layer first.
///
/// A cel is used exactly when visibility is ignored or its layer is marked
/// visible — a membership test evaluated anew for every cel. When the
/// frame holds a single used cel whose effective opacity is exactly one
/// and whose image is everywhere opaque or blank, the merge returns that
/// cel's bytes unchanged.
fn merge_frame(pxo: &Pxo, frame_index: usize, options: SpriteOptions) -> (r: Result<
    Image,
    PxoError,
>)
    requires
        pxo.wf(),
        frame_index < pxo.meta.frames@.len(),
    ensures
        r.is_ok() <==> pxo.meta.width * pxo.meta.height * 4 <= usize::MAX,
        r is Err ==> r matches Err(PxoError::SpriteConversion),
        r matches Ok(img) ==> spec_merged(*pxo, frame_index as int, options, img),
        r is Ok ==> spec_opaque_cel_tops(*pxo, frame_index as int, options),
        r matches Ok(img) ==> (single_opaque_visible(*pxo, frame_index as int, options)
            ==> img.data@ == pxo.images@[pxo.meta.frames@[frame_index as int].cels@[0].image_index as int].data@),
{
    let w = pxo.meta.width;
    let h = pxo.meta.height;
    let mut img = match Image::new_transparent(w, h) {
        Some(i) => i,
        None => {
            return Err(PxoError::SpriteConversion);
        },
    };
    proof {
        assert forall|p: int| 0 <= p < w * h implies #[trigger] img.spec_pixel(p)
            == transparent_px() by {
            assert(img.spec_pixel(p) =~= transparent_px());
        }
    }
    let ncels = pxo.meta.frames[frame_index].cels.len();
    let mut k: usize = 0;
    while k < ncels
        invariant
            pxo.wf(),
            frame_index < pxo.meta.frames@.len(),
            ncels == pxo.meta.frames@[frame_index as int].cels@.len(),
            k <= ncels,
            w == pxo.meta.width,
            h == pxo.meta.height,
            img.width == w,
            img.height == h,
            img.wf(),
            forall|p: int|
                0 <= p < w * h ==> #[trigger] img.spec_pixel(p) == spec_composite(
                    *pxo,
                    frame_index as int,
                    k as int,
                    p,
                    options,
                ),
            single_opaque_visible(*pxo, frame_index as int, options) && k >= 1 ==> img.data@
                == pxo.images@[pxo.meta.frames@[frame_index as int].cels@[0].image_index as int].data@,
            forall|k2: int, p: int|
                0 <= k2 < k && 0 <= p < w * h && spec_used(
                    pxo.meta.layers@,
                    k2,
                    options.ignore_layer_visibility,
                ) && (#[trigger] spec_scaled_pixel(
                    pxo.images@[pxo.meta.frames@[frame_index as int].cels@[k2].image_index as int],
                    p,
                    spec_mult(
                        pxo.meta.frames@[frame_index as int].cels@,
                        k2,
                        options.ignore_cel_opacity,
                    ),
                ))[3] == 255 ==> spec_composite(*pxo, frame_index as int, k2 + 1, p, options)
                    == spec_scaled_pixel(
                    pxo.images@[pxo.meta.frames@[frame_index as int].cels@[k2].image_index as int],
                    p,
                    spec_mult(
                        pxo.meta.frames@[frame_index as int].cels@,
                        k2,
                        options.ignore_cel_opacity,
                    ),
                ),
        decreases ncels - k,
    {
        let ghost cels = pxo.meta.frames@[frame_index as int].cels@;
        let cel = pxo.meta.frames[frame_index].cels[k];
        let used = options.ignore_layer_visibility || (k < pxo.meta.layers.len()
            && pxo.meta.layers[k].visible);
        let mult: u64 = if options.ignore_cel_opacity {
            0x3FF0_0000_0000_0000
        } else {
            cel.opacity
        };
        proof {
            assert(used == spec_used(pxo.meta.layers@, k as int, options.ignore_layer_visibility));
            assert(mult == spec_mult(cels, k as int, options.ignore_cel_opacity));
        }
        if used {
            let src = &pxo.images[cel.image_index];
            let new_data = blend_pass(&img, src, mult);
            let ghost old_img = img;
            img = Image { width: w, height: h, data: new_data };
            proof {
                assert forall|p: int| 0 <= p < w * h implies #[trigger] img.spec_pixel(p)
                    == spec_composite(*pxo, frame_index as int, k as int + 1, p, options) by {
                    assert(img.spec_pixel(p) == new_data@.subrange(4 * p, 4 * p + 4));
                    assert(new_data@.subrange(4 * p, 4 * p + 4) == blend_of(
                        old_img.spec_pixel(p),
                        spec_scaled_pixel(*src, p, mult),
                    ));
                }
                assert forall|p: int|
                    0 <= p < w * h && (#[trigger] spec_scaled_pixel(*src, p, mult))[3]
                        == 255 implies spec_composite(*pxo, frame_index as int, k as int + 1, p, options)
                    == spec_scaled_pixel(*src, p, mult) by {
                    assert(new_data@.subrange(4 * p, 4 * p + 4) == spec_scaled_pixel(
                        *src,
                        p,
                        mult,
                    ));
                }
                if single_opaque_visible(*pxo, frame_index as int, options) && k == 0 {
                    assert forall|p: int| 0 <= p < w * h implies #[trigger] img.spec_pixel(p)
                        == src.spec_pixel(p) by {
                        assert(old_img.spec_pixel(p) == transparent_px());
                        assert(src.spec_pixel(p)[3] == 255 || src.spec_pixel(p)
                            == transparent_px());
                    }
                    lemma_pixels_eq_data_eq(img, *src);
                }
            }
        } else {
            proof {
                assert forall|p: int| 0 <= p < w * h implies #[trigger] img.spec_pixel(p)
                    == spec_composite(*pxo, frame_index as int, k as int + 1, p, options) by {}
            }
        }
        k = k + 1;
    }
    Ok(img)
}

/// A container with its layers merged down: one composited image per
/// frame, plus what is needed to animate them.
#[derive(Clone, Debug)]
pub struct Sprite {
    /// The width of every frame image in pixels.
    pub width: u32,
    /// The height of every frame image in pixels.
    pub height: u32,
    /// The frames-per-second rate, as the bit pattern of a 64-bit float,
    /// copied from the metadata's rate.
    pub fps: u64,
    /// The metadata's tags, carried over verbatim.
    pub tags: Vec<Tag>,
    /// Per frame, how long it is shown, in seconds, as 64-bit float bits.
    pub durations: Vec<u64>,
    /// One composited image per frame, in frame order.
    pub images: Vec<Image>,
}

impl Sprite {
    /// `s` is the sprite derived from `pxo` under `opts`: dimensions, rate
    /// and tags carried over, and per frame its duration and the merge of
    /// its cels.
    pub open spec fn spec_from(pxo: Pxo, opts: SpriteOptions, s: Sprite) -> bool {
        &&& s.width == pxo.meta.width
        &&& s.height == pxo.meta.height
        &&& s.fps == pxo.meta.fps
        &&& s.tags@ == pxo.meta.tags@
        &&& s.durations@.len() == pxo.meta.frames@.len()
        &&& forall|i: int|
            0 <= i < pxo.meta.frames@.len() ==> #[trigger] s.durations@[i]
                == pxo.meta.frames@[i].duration
        &&& s.images@.len() == pxo.meta.frames@.len()
        &&& forall|i: int|
            0 <= i < pxo.meta.frames@.len() ==> spec_merged(pxo, i, opts, #[trigger] s.images@[i])
    }

    /// Merges a container's layers down into a [`Sprite`].
    ///
    /// Succeeds unless a frame image cannot be allocated; the result then
    /// carries the metadata's dimensions, rate and tags, and one merged
    /// image and one duration per frame. When a frame holds a single used
    /// cel of effective opacity one whose image is everywhere opaque or
    /// blank, that frame's merged image is the cel's bytes unchanged.
    pub fn from(pxo: Pxo, options: SpriteOptions) -> (r: Result<Sprite, PxoError>)
        requires
            pxo.wf(),
        ensures
            r.is_ok() <==> (pxo.meta.frames@.len() == 0 || pxo.meta.width * pxo.meta.height * 4
                <= usize::MAX),
            r is Err ==> r matches Err(PxoError::SpriteConversion),
            r matches Ok(s) ==> Self::spec_from(pxo, options, s),
            r is Ok ==> forall|i: int|
                0 <= i < pxo.meta.frames@.len() ==> #[trigger] spec_opaque_cel_tops(
                    pxo,
                    i,
                    options,
                ),
            r matches Ok(s) ==> (forall|i: int|
                0 <= i < pxo.meta.frames@.len() && single_opaque_visible(pxo, i, options) ==> (
                #[trigger] s.images@[i]).data@
                    == pxo.images@[pxo.meta.frames@[i].cels@[0].image_index as int].data@),
    {
        let nf = pxo.meta.frames.len();
        let mut durations: Vec<u64> = Vec::new();
        let mut images: Vec<Image> = Vec::new();
        let mut i: usize = 0;
        while i < nf
            invariant
                pxo.wf(),
                nf == pxo.meta.frames@.len(),
                i <= nf,
                i > 0 ==> pxo.meta.width * pxo.meta.height * 4 <= usize::MAX,
                durations@.len() == i,
                images@.len() == i,
                forall|k: int|
                    0 <= k < i ==> #[trigger] durations@[k] == pxo.meta.frames@[k].duration,
                forall|k: int| 0 <= k < i ==> spec_merged(pxo, k, options, #[trigger] images@[k]),
                forall|k: int| 0 <= k < i ==> #[trigger] spec_opaque_cel_tops(pxo, k, options),
                forall|k: int|
                    0 <= k < i && single_opaque_visible(pxo, k, options) ==> (
                    #[trigger] images@[k]).data@
                        == pxo.images@[pxo.meta.frames@[k].cels@[0].image_index as int].data@,
            decreases nf - i,
        {
            let merged = match merge_frame(&pxo, i, options) {
                Ok(m) => m,
                Err(e) => {
                    return Err(e);
                },
            };
            images.push(merged);
            durations.push(pxo.meta.frames[i].duration);
            i = i + 1;
        }
        let sprite = Sprite {
            width: pxo.meta.width,
            height: pxo.meta.height,
            fps: pxo.meta.fps,
            tags: pxo.meta.tags,
            durations,
            images,
        };
        Ok(sprite)
    }

    /// Loads a container from raw bytes and merges it down in one step:
    /// exactly [`Pxo::load`] followed by [`Sprite::from`].
    ///
    /// Succeeds exactly when the bytes load as a container whose frame
    /// images are also allocatable, and then returns the sprite derived
    /// from that container — the one `spec_loaded` ties to the bytes.
    pub fn load(data: &[u8], options: SpriteOptions) -> (r: Result<Sprite, PxoError>)
        ensures
            r.is_ok() <==> crate::spec_load_ok(data@) && {
                let tree = crate::spec_load_tree(data@);
                crate::meta::jv_get_arr(tree, "frames"@).unwrap().len() == 0
                    || crate::spec_tree_image_bytes(tree) <= usize::MAX
            },
            r matches Ok(s) ==> exists|p: Pxo|
                crate::spec_loaded(data@, p) && #[trigger] Self::spec_from(p, options, s),
            crate::spec_load_ok(data@) && r is Err ==> r matches Err(PxoError::SpriteConversion),
    {
        let pxo = match Pxo::load(data) {
            Ok(p) => p,
            Err(e) => {
                return Err(e);
            },
        };
        let ghost gp = pxo;
        proof {
            let tree = crate::spec_load_tree(data@);
            assert(gp.meta.frames@.len() == crate::meta::jv_get_arr(tree, "frames"@).unwrap().len());
            assert(crate::spec_tree_image_bytes(tree) == gp.meta.width * gp.meta.height * 4);
        }
        let r = Sprite::from(pxo, options);
        proof {
            if r is Ok {
                let s = r.unwrap();
                assert(crate::spec_loaded(data@, gp) && Self::spec_from(gp, options, s));
            }
        }
        r
    }
}

} // verus!
