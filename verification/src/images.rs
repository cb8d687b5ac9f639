use vstd::prelude::*;

use crate::error::PxoError;
use crate::meta::Meta;

verus! {

/// A 2D RGBA8 image: one red, green, blue and alpha byte per pixel, rows
/// stored top to bottom with no padding.
#[derive(Clone, Debug)]
pub struct Image {
    /// The width in pixels.
    pub width: u32,
    /// The height in pixels.
    pub height: u32,
    /// The pixel bytes, `4 * width * height` of them.
    pub data: Vec<u8>,
}

impl Image {
    /// The pixel buffer holds exactly four bytes per pixel.
    pub open spec fn wf(self) -> bool {
        self.data@.len() == self.width * self.height * 4
    }

    /// The four bytes of the pixel at flat index `p`.
    pub open spec fn spec_pixel(self, p: int) -> Seq<u8> {
        self.data@.subrange(4 * p, 4 * p + 4)
    }

    /// The four bytes of the pixel at column `x`, row `y`.
    pub open spec fn spec_pixel_xy(self, x: int, y: int) -> Seq<u8> {
        self.spec_pixel(y * self.width + x)
    }

    /// Reads the four bytes of the pixel at flat index `q`.
    pub fn get_pixel(&self, q: usize) -> (r: [u8; 4])
        requires
            self.wf(),
            q < self.width * self.height,
        ensures
            r@ == self.spec_pixel(q as int),
    {
        let n: usize = self.data.len();
        proof {
            lemma_pixel_bytes_in_range(*self, q as int);
        }
        let idx: usize = 4 * q;
        let r: [u8; 4] = [self.data[idx], self.data[idx + 1], self.data[idx + 2], self.data[idx
            + 3]];
        proof {
            assert(r@ =~= self.spec_pixel(q as int));
        }
        r
    }

    /// Overwrites the pixel at flat index `q`, leaving every other pixel
    /// untouched.
    pub fn put_pixel(&mut self, q: usize, px: [u8; 4])
        requires
            old(self).wf(),
            q < old(self).width * old(self).height,
        ensures
            final(self).wf(),
            final(self).width == old(self).width,
            final(self).height == old(self).height,
            final(self).spec_pixel(q as int) == px@,
            forall|q2: int|
                0 <= q2 < old(self).width * old(self).height && q2 != q
                    ==> #[trigger] final(self).spec_pixel(q2) == old(self).spec_pixel(q2),
    {
        let n: usize = self.data.len();
        proof {
            lemma_pixel_bytes_in_range(*old(self), q as int);
        }
        let ghost before = self.data@;
        let idx: usize = 4 * q;
        self.data[idx] = px[0];
        self.data[idx + 1] = px[1];
        self.data[idx + 2] = px[2];
        self.data[idx + 3] = px[3];
        proof {
            assert(self.spec_pixel(q as int) =~= px@);
            assert forall|q2: int|
                0 <= q2 < self.width * self.height && q2 != q implies #[trigger] self.data@.subrange(
                4 * q2,
                4 * q2 + 4,
            ) =~= before.subrange(4 * q2, 4 * q2 + 4) by {
                lemma_pixel_bytes_in_range(*old(self), q2);
                assert(4 * q2 + 4 <= 4 * (q as int) || 4 * q2 >= 4 * (q as int) + 4);
            }
        }
    }

    /// Allocates a fully transparent (all-zero) image, or fails when the
    /// pixel buffer would not fit the machine's address space.
    pub fn new_transparent(width: u32, height: u32) -> (r: Option<Image>)
        ensures
            r is Some <==> width * height * 4 <= usize::MAX,
            r matches Some(img) ==> {
                &&& img.wf()
                &&& img.width == width
                &&& img.height == height
                &&& img.data@ =~= Seq::new((width * height * 4) as nat, |i: int| 0u8)
            },
    {
        proof {
            assert((width as int) * (height as int) <= 0xFFFF_FFFF * 0xFFFF_FFFF)
                by (nonlinear_arith)
                requires
                    width as int <= 0xFFFF_FFFF,
                    height as int <= 0xFFFF_FFFF,
            ;
        }
        let wh: u64 = width as u64 * height as u64;
        if wh > usize::MAX as u64 / 4 {
            proof {
                assert(width as int * height as int * 4 > usize::MAX);
            }
            return None;
        }
        let size: usize = (wh as usize) * 4;
        let data: Vec<u8> = vec![0u8; size];
        proof {
            assert(data@ =~= Seq::new((width * height * 4) as nat, |i: int| 0u8));
        }
        Some(Image { width, height, data })
    }
}

/// The four bytes of pixel `q` lie inside the image's buffer.
proof fn lemma_pixel_bytes_in_range(img: Image, q: int)
    requires
        img.wf(),
        0 <= q < img.width * img.height,
    ensures
        4 * q + 4 <= img.data@.len(),
{
    assert(4 * (q + 1) <= 4 * (img.width * img.height) && img.width * img.height * 4 == 4 * (
    img.width * img.height)) by (nonlinear_arith)
        requires
            q + 1 <= img.width * img.height,
    ;
}

/// How many cels (and so raw images) the first `i` frames of `m` hold.
pub open spec fn spec_cels_in_frames(m: Meta, i: int) -> int
    decreases i,
{
    if i <= 0 {
        0
    } else {
        spec_cels_in_frames(m, i - 1) + m.frames@[i - 1].cels@.len()
    }
}

/// The total cel count of `m`: one raw image is owed per cel.
pub open spec fn spec_total_cels(m: Meta) -> int {
    spec_cels_in_frames(m, m.frames@.len() as int)
}

/// The byte size of one raw image of `m`.
pub open spec fn spec_image_bytes(m: Meta) -> int {
    m.width * m.height * 4
}

/// Cel counts only accumulate over frames.
pub proof fn lemma_cels_in_frames_mono(m: Meta, i: int, j: int)
    requires
        0 <= i <= j,
    ensures
        spec_cels_in_frames(m, i) <= spec_cels_in_frames(m, j),
    decreases j - i,
{
    if i < j {
        lemma_cels_in_frames_mono(m, i, j - 1);
    }
}

/// Metadata that matches a document holds, frame for frame, as many cels
/// as the document, so the two cel-counting sums agree on every prefix.
pub proof fn lemma_json_cels_match(j: crate::json::JsonValue, m: Meta, i: int)
    requires
        crate::meta::meta_matches(j, m),
        0 <= i <= m.frames@.len(),
    ensures
        spec_cels_in_frames(m, i) == crate::meta::spec_cels_before(
            crate::meta::jv_get_arr(j, "frames"@).unwrap(),
            i,
        ),
    decreases i,
{
    if i > 0 {
        lemma_json_cels_match(j, m, i - 1);
    }
}

/// Reads one raw RGBA8 image per cel of `meta` out of `rest`, in the
/// frame-major cel order that assigned the image indices.
///
/// Succeeds exactly when `rest` holds `4 * width * height` bytes for every
/// cel; the `i`-th image is then exactly the `i`-th such chunk. Bytes
/// beyond the last chunk are ignored.
pub fn load_images(meta: &Meta, rest: &[u8]) -> (r: Result<Vec<Image>, PxoError>)
    ensures
        r.is_ok() <==> spec_total_cels(*meta) * spec_image_bytes(*meta) <= rest@.len(),
        r matches Ok(imgs) ==> {
            &&& imgs@.len() == spec_total_cels(*meta)
            &&& forall|i: int|
                0 <= i < imgs@.len() ==> (#[trigger] imgs@[i]).width == meta.width
                    && imgs@[i].height == meta.height && imgs@[i].wf()
            &&& forall|i: int|
                0 <= i < imgs@.len() ==> (#[trigger] imgs@[i]).data@ == rest@.subrange(
                    i * spec_image_bytes(*meta),
                    (i + 1) * spec_image_bytes(*meta),
                )
        },
        r is Err ==> r matches Err(PxoError::ReadFile),
{
    let ghost m = *meta;
    let ghost sz = spec_image_bytes(*meta);
    proof {
        assert((meta.width as int) * (meta.height as int) <= 0xFFFF_FFFF * 0xFFFF_FFFF)
            by (nonlinear_arith)
            requires
                meta.width as int <= 0xFFFF_FFFF,
                meta.height as int <= 0xFFFF_FFFF,
        ;
    }
    let wh: u64 = meta.width as u64 * meta.height as u64;
    let rest_len: usize = rest.len();

    let mut images: Vec<Image> = Vec::new();
    let mut offset: usize = 0;
    let nf = meta.frames.len();
    let mut f: usize = 0;
    while f < nf
        invariant
            nf == m.frames@.len(),
            *meta == m,
            f <= nf,
            sz == spec_image_bytes(m),
            wh * 4 == sz,
            rest_len == rest@.len(),
            images@.len() == spec_cels_in_frames(m, f as int),
            offset == images@.len() * sz,
            offset <= rest_len,
            forall|i: int|
                0 <= i < images@.len() ==> (#[trigger] images@[i]).width == m.width
                    && images@[i].height == m.height && images@[i].wf(),
            forall|i: int|
                0 <= i < images@.len() ==> (#[trigger] images@[i]).data@ == rest@.subrange(
                    i * sz,
                    (i + 1) * sz,
                ),
        decreases nf - f,
    {
        let nc = meta.frames[f].cels.len();
        let mut c: usize = 0;
        while c < nc
            invariant
                nf == m.frames@.len(),
                *meta == m,
                f < nf,
                nc == m.frames@[f as int].cels@.len(),
                c <= nc,
                sz == spec_image_bytes(m),
                wh * 4 == sz,
                rest_len == rest@.len(),
                images@.len() == spec_cels_in_frames(m, f as int) + c,
                offset == images@.len() * sz,
                offset <= rest_len,
                forall|i: int|
                    0 <= i < images@.len() ==> (#[trigger] images@[i]).width == m.width
                        && images@[i].height == m.height && images@[i].wf(),
                forall|i: int|
                    0 <= i < images@.len() ==> (#[trigger] images@[i]).data@ == rest@.subrange(
                        i * sz,
                        (i + 1) * sz,
                    ),
            decreases nc - c,
        {
            let rem = rest_len - offset;
            if (rem as u128) < (wh as u128) * 4 {
                proof {
                    let k = images@.len() as int;
                    assert(k * sz + sz == (k + 1) * sz) by (nonlinear_arith);
                    assert(k * sz + sz > rest@.len());
                    assert(spec_total_cels(m) >= k + 1) by {
                        lemma_cels_in_frames_mono(m, f as int + 1, m.frames@.len() as int);
                    }
                    assert(spec_total_cels(m) * sz >= (k + 1) * sz) by (nonlinear_arith)
                        requires
                            spec_total_cels(m) >= k + 1,
                            sz >= 0,
                    ;
                }
                return Err(PxoError::ReadFile);
            }
            let szu: usize = (wh as usize) * 4;
            let piece = &rest[offset..offset + szu];
            proof {
                assert(piece@ == rest@.subrange(offset as int, offset as int + szu as int));
            }
            let chunk: Vec<u8> = vstd::slice::slice_to_vec(piece);
            images.push(
                Image { width: meta.width, height: meta.height, data: chunk },
            );
            proof {
                let k = images@.len() - 1;
                assert(k * sz + sz == (k + 1) * sz) by (nonlinear_arith);
                assert(images@[k].data@ =~= rest@.subrange(k * sz, (k + 1) * sz));
            }
            offset = offset + szu;
            c = c + 1;
        }
        f = f + 1;
    }
    proof {
        let total = spec_total_cels(m);
        assert(images@.len() == total);
        assert(total * sz <= rest@.len());
    }
    Ok(images)
}

} // verus!
