//! Loader for a block-compressed pixel-art animation container.
//!
//! A container holds a zstd-block-compressed payload whose first line is a
//! JSON metadata document and whose remainder is raw RGBA8 pixel data, one
//! image per cel. The crate decodes the container into a [`Pxo`], merges the
//! layers of each frame into a [`sprite::Sprite`], and can pack one or more
//! sprites into a shared atlas image.

use vstd::prelude::*;

pub mod decompress;
pub mod error;
pub mod images;
pub mod json;
pub mod meta;
pub mod pack;
pub mod read_ext;
pub mod sprite;

use crate::decompress::{decompress, decompress_ok, spec_payload};
use crate::error::PxoError;
use crate::images::{load_images, spec_cels_in_frames, spec_image_bytes, spec_total_cels, Image};
use crate::json::{json_of, parse_json, JsonValue};
use crate::meta::{
    jv_get_arr, jv_get_int, meta_matches, meta_ok, parse_meta, spec_cels_before, trunc32, Meta,
};
use crate::read_ext::utf8_to_string;

verus! {

/// One past the index of the first newline byte of `p` at or after `from`,
/// or `p.len()` when no newline follows: where the metadata line ends and
/// the pixel section begins.
pub open spec fn spec_line_end(p: Seq<u8>, from: int) -> int
    decreases p.len() - from,
{
    if from < 0 || from >= p.len() {
        p.len() as int
    } else if p[from] == 0x0Au8 {
        from + 1
    } else {
        spec_line_end(p, from + 1)
    }
}

/// The payload's metadata line: everything up to and including the first
/// newline, or the whole payload when none occurs.
pub open spec fn spec_line_bytes(payload: Seq<u8>) -> Seq<u8> {
    payload.subrange(0, spec_line_end(payload, 0))
}

/// The byte size one raw image occupies, as a metadata document declares
/// it: the narrowed `size_x` and `size_y`, four bytes per pixel.
pub open spec fn spec_tree_image_bytes(j: JsonValue) -> int {
    trunc32(jv_get_int(j, "size_x"@).unwrap()) * trunc32(jv_get_int(j, "size_y"@).unwrap()) * 4
}

/// The total cel count a metadata document declares.
pub open spec fn spec_tree_total_cels(j: JsonValue) -> int {
    spec_cels_before(
        jv_get_arr(j, "frames"@).unwrap(),
        jv_get_arr(j, "frames"@).unwrap().len() as int,
    )
}

/// The metadata tree parsed from a container's payload line.
pub open spec fn spec_load_tree(data: Seq<u8>) -> JsonValue {
    json_of(vstd::utf8::decode_utf8(spec_line_bytes(spec_payload(data)))).unwrap()
}

/// A container's bytes load: the payload decompresses, its first line is
/// UTF-8 text holding a valid metadata document, and the remainder holds
/// one full image per declared cel.
pub open spec fn spec_load_ok(data: Seq<u8>) -> bool {
    let payload = spec_payload(data);
    let line = spec_line_bytes(payload);
    &&& decompress_ok(data)
    &&& vstd::utf8::valid_utf8(line)
    &&& json_of(vstd::utf8::decode_utf8(line)) is Some
    &&& meta_ok(spec_load_tree(data))
    &&& spec_line_end(payload, 0) + spec_tree_total_cels(spec_load_tree(data))
        * spec_tree_image_bytes(spec_load_tree(data)) <= payload.len()
}

/// `pxo` is what loading `data` yields: well-formed, its metadata exactly
/// the metadata the payload line's document describes, and its images
/// exactly the payload's pixel chunks, in image-index order.
pub open spec fn spec_loaded(data: Seq<u8>, pxo: Pxo) -> bool {
    let payload = spec_payload(data);
    let line_end = spec_line_end(payload, 0);
    let sz = spec_image_bytes(pxo.meta);
    &&& pxo.wf()
    &&& meta_matches(spec_load_tree(data), pxo.meta)
    &&& line_end + spec_total_cels(pxo.meta) * sz <= payload.len()
    &&& forall|i: int|
        0 <= i < pxo.images@.len() ==> (#[trigger] pxo.images@[i]).data@ == payload.subrange(
            line_end + i * sz,
            line_end + (i + 1) * sz,
        )
}

/// The decoded contents of one container: its metadata and one raw RGBA8
/// image per cel, in image-index order.
#[derive(Clone, Debug)]
pub struct Pxo {
    /// The metadata parsed from the payload's leading JSON line.
    pub meta: Meta,
    /// The raw images, one per cel, indexed by [`meta::Cel::image_index`].
    pub images: Vec<Image>,
}

impl Pxo {
    /// The container is internally consistent: one image per cel, every
    /// image of the metadata's dimensions, and cel image indices assigned
    /// densely in frame-major order, so each indexes into `images`.
    pub open spec fn wf(self) -> bool {
        &&& self.images@.len() == spec_total_cels(self.meta)
        &&& forall|i: int|
            0 <= i < self.images@.len() ==> (#[trigger] self.images@[i]).width == self.meta.width
                && self.images@[i].height == self.meta.height && self.images@[i].wf()
        &&& forall|f: int, c: int|
            0 <= f < self.meta.frames@.len() && 0 <= c < self.meta.frames@[f].cels@.len() ==> (
            #[trigger] self.meta.frames@[f].cels@[c]).image_index == spec_cels_in_frames(
                self.meta,
                f,
            ) + c
        &&& forall|f: int, c: int|
            0 <= f < self.meta.frames@.len() && 0 <= c < self.meta.frames@[f].cels@.len() ==> (
            #[trigger] self.meta.frames@[f].cels@[c]).image_index < self.images@.len()
    }

    /// Loads a container from its raw bytes: decompresses the payload,
    /// parses the leading JSON line into metadata, and reads one raw image
    /// per cel from the rest.
    ///
    /// Succeeds exactly on the inputs `spec_load_ok` describes, and then
    /// returns the well-formed container whose metadata is the payload
    /// line's document and whose images are the payload's pixel chunks.
    pub fn load(data: &[u8]) -> (r: Result<Pxo, PxoError>)
        ensures
            r.is_ok() <==> spec_load_ok(data@),
            r matches Ok(pxo) ==> spec_loaded(data@, pxo),
            decompress_ok(data@) && !vstd::utf8::valid_utf8(
                spec_line_bytes(spec_payload(data@)),
            ) ==> r matches Err(PxoError::ReadFile),
            decompress_ok(data@) && vstd::utf8::valid_utf8(spec_line_bytes(spec_payload(data@)))
                && json_of(
                vstd::utf8::decode_utf8(spec_line_bytes(spec_payload(data@))),
            ) is None ==> r matches Err(PxoError::ReadJson),
            decompress_ok(data@) && vstd::utf8::valid_utf8(spec_line_bytes(spec_payload(data@)))
                && json_of(vstd::utf8::decode_utf8(spec_line_bytes(spec_payload(data@)))) is Some
                && !meta_ok(spec_load_tree(data@)) ==> r matches Err(PxoError::UnexpectedJson),
            decompress_ok(data@) && vstd::utf8::valid_utf8(spec_line_bytes(spec_payload(data@)))
                && json_of(vstd::utf8::decode_utf8(spec_line_bytes(spec_payload(data@)))) is Some
                && meta_ok(spec_load_tree(data@)) && !spec_load_ok(data@) ==> r matches Err(
                PxoError::ReadFile,
            ),
    {
        let payload = match decompress(data) {
            Ok(p) => p,
            Err(e) => {
                return Err(e);
            },
        };
        let ghost pl = payload@;
        proof {
            assert(pl == spec_payload(data@));
        }

        // Split off the leading metadata line, newline included.
        let n = payload.len();
        let mut i: usize = 0;
        while i < n && *vstd::slice::slice_index_get(payload.as_slice(), i) != 0x0A
            invariant
                n == pl.len(),
                payload@ == pl,
                i <= n,
                spec_line_end(pl, 0) == spec_line_end(pl, i as int),
                forall|k: int| 0 <= k < i ==> pl[k] != 0x0Au8,
            decreases n - i,
        {
            i = i + 1;
        }
        let line_end: usize = if i < n {
            i + 1
        } else {
            n
        };
        proof {
            assert(spec_line_end(pl, 0) == line_end);
        }

        let line = &payload.as_slice()[0..line_end];
        proof {
            assert(line@ == spec_line_bytes(pl));
        }
        let json_text = match utf8_to_string(line) {
            Some(s) => s,
            None => {
                return Err(PxoError::ReadFile);
            },
        };
        let tree = match parse_json(json_text.as_str()) {
            Ok(t) => t,
            Err(e) => {
                proof {
                    assert(json_of(vstd::utf8::decode_utf8(spec_line_bytes(pl))) is None);
                }
                return Err(e);
            },
        };
        let ghost jt = tree;
        proof {
            assert(jt == spec_load_tree(data@));
        }
        let meta = match parse_meta(&tree) {
            Ok(m) => m,
            Err(e) => {
                return Err(e);
            },
        };
        proof {
            lemma_meta_measures_match(jt, meta);
        }
        let images = match load_images(&meta, &payload.as_slice()[line_end..n]) {
            Ok(imgs) => imgs,
            Err(e) => {
                return Err(e);
            },
        };
        let pxo = Pxo { meta, images };
        proof {
            let sz = spec_image_bytes(pxo.meta);
            let rest = pl.subrange(line_end as int, n as int);
            assert(sz >= 0) by (nonlinear_arith)
                requires
                    sz == (pxo.meta.width as int) * (pxo.meta.height as int) * 4,
                    pxo.meta.width >= 0,
                    pxo.meta.height >= 0,
            ;
            assert(spec_total_cels(pxo.meta) * sz <= rest.len());
            assert forall|i2: int| 0 <= i2 < pxo.images@.len() implies (
            #[trigger] pxo.images@[i2]).data@ == pl.subrange(
                line_end + i2 * sz,
                line_end + (i2 + 1) * sz,
            ) by {
                assert(pxo.images@[i2].data@ == rest.subrange(i2 * sz, (i2 + 1) * sz));
                assert(0 <= i2 * sz && (i2 + 1) * sz <= spec_total_cels(pxo.meta) * sz)
                    by (nonlinear_arith)
                    requires
                        0 <= i2,
                        i2 + 1 <= spec_total_cels(pxo.meta),
                        sz >= 0,
                ;
                assert((i2 + 1) * sz == i2 * sz + sz) by (nonlinear_arith);
                assert forall|k: int| 0 <= k < sz implies #[trigger] rest.subrange(
                    i2 * sz,
                    (i2 + 1) * sz,
                )[k] == pl.subrange(line_end + i2 * sz, line_end + (i2 + 1) * sz)[k] by {
                    assert(rest.subrange(i2 * sz, (i2 + 1) * sz)[k] == rest[i2 * sz + k]);
                    assert(rest[i2 * sz + k] == pl[line_end + i2 * sz + k]);
                }
                assert(rest.subrange(i2 * sz, (i2 + 1) * sz) =~= pl.subrange(
                    line_end + i2 * sz,
                    line_end + (i2 + 1) * sz,
                ));
            }
            let jframes = crate::meta::jv_get_arr(jt, "frames"@).unwrap();
            assert forall|f: int, c: int|
                0 <= f < pxo.meta.frames@.len() && 0 <= c
                    < pxo.meta.frames@[f].cels@.len() implies (
            #[trigger] pxo.meta.frames@[f].cels@[c]).image_index == spec_cels_in_frames(
                pxo.meta,
                f,
            ) + c && pxo.meta.frames@[f].cels@[c].image_index < pxo.images@.len() by {
                crate::images::lemma_json_cels_match(jt, pxo.meta, f);
                assert(pxo.meta.frames@[f].cels@[c].image_index == crate::meta::spec_cels_before(
                    jframes,
                    f,
                ) + c);
                crate::images::lemma_cels_in_frames_mono(pxo.meta, f + 1, pxo.meta.frames@.len() as int);
            }
            assert(pxo.wf());
            assert(spec_loaded(data@, pxo));
            assert(spec_load_ok(data@));
        }
        Ok(pxo)
    }
}

/// Metadata that matches a document measures the same as the document:
/// the same per-image byte size and the same total cel count.
proof fn lemma_meta_measures_match(j: JsonValue, m: Meta)
    requires
        meta_matches(j, m),
    ensures
        spec_tree_image_bytes(j) == spec_image_bytes(m),
        spec_tree_total_cels(j) == spec_total_cels(m),
{
    crate::images::lemma_json_cels_match(j, m, m.frames@.len() as int);
}

} // verus!
