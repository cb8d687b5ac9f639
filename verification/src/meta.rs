use vstd::prelude::*;

use crate::error::PxoError;
use crate::json::{spec_obj_get, obj_get, JsonValue};

verus! {

/// The validated animation metadata of a container.
///
/// Times are not computed with here, so `fps`, frame durations and cel
/// opacities are carried as the IEEE-754 bit pattern of the 64-bit float
/// the JSON document held.
#[derive(Clone, Debug)]
pub struct Meta {
    /// The width of every image in the container, in pixels.
    pub width: u32,
    /// The height of every image in the container, in pixels.
    pub height: u32,
    /// The frames-per-second rate, as the bit pattern of a 64-bit float.
    pub fps: u64,
    /// The frames, in order. Each holds one cel per layer.
    pub frames: Vec<Frame>,
    /// The layers, bottom-most first.
    pub layers: Vec<Layer>,
    /// Named frame ranges, mostly used to mark sub-animations.
    pub tags: Vec<Tag>,
}

/// One time-step of the animation.
#[derive(Clone, Debug)]
pub struct Frame {
    /// How long the frame is shown, in seconds, as the bit pattern of a
    /// 64-bit float.
    pub duration: u64,
    /// One cel per layer, in the same order as [`Meta::layers`].
    pub cels: Vec<Cel>,
}

/// The pixel content of one (frame, layer) pair.
#[derive(Clone, Copy, Debug)]
pub struct Cel {
    /// The cel's opacity in `[0.0, 1.0]`, unclamped, as the bit pattern of
    /// a 64-bit float.
    pub opacity: u64,
    /// Which raw image of the container this cel uses. Assigned during
    /// parsing, counting cels frame-major in layer order, so the values are
    /// dense and strictly increasing across the whole metadata.
    pub image_index: usize,
}

/// A named, independently visible drawing plane.
#[derive(Clone, Debug)]
pub struct Layer {
    /// The layer's name.
    pub name: String,
    /// Whether the layer is shown when compositing.
    pub visible: bool,
}

/// A named inclusive range of frames. Neither `from <= to` nor that the
/// indices are in range is validated, as the document does not promise it.
#[derive(Clone, Debug)]
pub struct Tag {
    /// The name of the sub-animation.
    pub name: String,
    /// The first frame of the range.
    pub from: usize,
    /// The last frame of the range, inclusive.
    pub to: usize,
}

/// The value under `key` when `j` is an object that has it.
pub open spec fn jv_get(j: JsonValue, key: Seq<char>) -> Option<JsonValue> {
    match j {
        JsonValue::Obj(entries) => spec_obj_get(entries@, key),
        _ => None,
    }
}

/// The float bit pattern of `j` when it is a number.
pub open spec fn jv_bits(j: JsonValue) -> Option<u64> {
    match j {
        JsonValue::Num { bits, .. } => bits,
        _ => None,
    }
}

/// The unsigned-integer value of `j` when it is one.
pub open spec fn jv_int(j: JsonValue) -> Option<u64> {
    match j {
        JsonValue::Num { uint, .. } => uint,
        _ => None,
    }
}

/// The elements of `j` when it is an array.
pub open spec fn jv_arr(j: JsonValue) -> Option<Seq<JsonValue>> {
    match j {
        JsonValue::Arr(items) => Some(items@),
        _ => None,
    }
}

/// The string value of `j` when it is a string.
pub open spec fn jv_str(j: JsonValue) -> Option<String> {
    match j {
        JsonValue::Str(s) => Some(s),
        _ => None,
    }
}

/// The boolean value of `j` when it is one.
pub open spec fn jv_bool(j: JsonValue) -> Option<bool> {
    match j {
        JsonValue::Bool(b) => Some(b),
        _ => None,
    }
}

/// The float bit pattern stored under `key` of object `j`, if any.
pub open spec fn jv_get_bits(j: JsonValue, key: Seq<char>) -> Option<u64> {
    match jv_get(j, key) {
        Some(v) => jv_bits(v),
        None => None,
    }
}

/// The unsigned integer stored under `key` of object `j`, if any.
pub open spec fn jv_get_int(j: JsonValue, key: Seq<char>) -> Option<u64> {
    match jv_get(j, key) {
        Some(v) => jv_int(v),
        None => None,
    }
}

/// The array stored under `key` of object `j`, if any.
pub open spec fn jv_get_arr(j: JsonValue, key: Seq<char>) -> Option<Seq<JsonValue>> {
    match jv_get(j, key) {
        Some(v) => jv_arr(v),
        None => None,
    }
}

/// The string stored under `key` of object `j`, if any.
pub open spec fn jv_get_str(j: JsonValue, key: Seq<char>) -> Option<String> {
    match jv_get(j, key) {
        Some(v) => jv_str(v),
        None => None,
    }
}

/// The boolean stored under `key` of object `j`, if any.
pub open spec fn jv_get_bool(j: JsonValue, key: Seq<char>) -> Option<bool> {
    match jv_get(j, key) {
        Some(v) => jv_bool(v),
        None => None,
    }
}

/// A cel document: an object with a numeric `opacity`.
pub open spec fn cel_ok(c: JsonValue) -> bool {
    jv_get_bits(c, "opacity"@) is Some
}

/// The cel array of a frame document.
pub open spec fn spec_frame_cels(f: JsonValue) -> Seq<JsonValue> {
    jv_get_arr(f, "cels"@).unwrap()
}

/// A frame document: an object with a numeric `duration` and an array
/// `cels` of valid cel documents.
pub open spec fn frame_ok(f: JsonValue) -> bool {
    &&& jv_get_bits(f, "duration"@) is Some
    &&& jv_get_arr(f, "cels"@) is Some
    &&& forall|c: int| 0 <= c < spec_frame_cels(f).len() ==> cel_ok(#[trigger] spec_frame_cels(f)[c])
}

/// A layer document: an object with a string `name` and a boolean
/// `visible`.
pub open spec fn layer_ok(l: JsonValue) -> bool {
    &&& jv_get_str(l, "name"@) is Some
    &&& jv_get_bool(l, "visible"@) is Some
}

/// A tag document: an object with unsigned-integer `from` and `to` and a
/// string `name`.
pub open spec fn tag_ok(t: JsonValue) -> bool {
    &&& jv_get_int(t, "from"@) is Some
    &&& jv_get_int(t, "to"@) is Some
    &&& jv_get_str(t, "name"@) is Some
}

/// How many cels the first `i` frame documents hold together.
pub open spec fn spec_cels_before(frames: Seq<JsonValue>, i: int) -> int
    decreases i,
{
    if i <= 0 {
        0
    } else {
        spec_cels_before(frames, i - 1) + spec_frame_cels(frames[i - 1]).len()
    }
}

/// Cel counts only accumulate: a later prefix holds at least as many cels.
proof fn lemma_cels_before_mono(frames: Seq<JsonValue>, i: int, j: int)
    requires
        0 <= i <= j,
    ensures
        spec_cels_before(frames, i) <= spec_cels_before(frames, j),
    decreases j - i,
{
    if i < j {
        lemma_cels_before_mono(frames, i, j - 1);
    }
}

/// A whole metadata document is valid: every required key is present with
/// the required type, every frame, layer and tag document is valid, and
/// the total cel count fits the machine.
pub open spec fn meta_ok(j: JsonValue) -> bool {
    &&& jv_get_int(j, "size_x"@) is Some
    &&& jv_get_int(j, "size_y"@) is Some
    &&& jv_get_bits(j, "fps"@) is Some
    &&& jv_get_arr(j, "frames"@) is Some
    &&& forall|i: int|
        0 <= i < jv_get_arr(j, "frames"@).unwrap().len() ==> frame_ok(
            #[trigger] jv_get_arr(j, "frames"@).unwrap()[i],
        )
    &&& jv_get_arr(j, "layers"@) is Some
    &&& forall|i: int|
        0 <= i < jv_get_arr(j, "layers"@).unwrap().len() ==> layer_ok(
            #[trigger] jv_get_arr(j, "layers"@).unwrap()[i],
        )
    &&& jv_get_arr(j, "tags"@) is Some
    &&& forall|i: int|
        0 <= i < jv_get_arr(j, "tags"@).unwrap().len() ==> tag_ok(
            #[trigger] jv_get_arr(j, "tags"@).unwrap()[i],
        )
    &&& spec_cels_before(jv_get_arr(j, "frames"@).unwrap(), jv_get_arr(j, "frames"@).unwrap().len() as int)
        <= usize::MAX
}

/// The low 32 bits of `v`, as the format's unsigned fields are narrowed.
pub open spec fn trunc32(v: u64) -> int {
    (v as u32) as int
}

/// `v` narrowed to the machine's word, as tag frame indices are.
pub open spec fn trunc_usize(v: u64) -> int {
    (v as usize) as int
}

/// `m` is exactly the metadata that document `j` describes: every scalar
/// copied (floats as their bit patterns, integers narrowed as the reference
/// layout narrows them), every list in document order, and cel image
/// indices assigned densely, frame-major.
pub open spec fn meta_matches(j: JsonValue, m: Meta) -> bool {
    let frames = jv_get_arr(j, "frames"@).unwrap();
    let layers = jv_get_arr(j, "layers"@).unwrap();
    let tags = jv_get_arr(j, "tags"@).unwrap();
    &&& m.width == trunc32(jv_get_int(j, "size_x"@).unwrap())
    &&& m.height == trunc32(jv_get_int(j, "size_y"@).unwrap())
    &&& m.fps == jv_get_bits(j, "fps"@).unwrap()
    &&& m.frames@.len() == frames.len()
    &&& forall|i: int|
        0 <= i < frames.len() ==> (#[trigger] m.frames@[i]).duration == jv_get_bits(
            frames[i],
            "duration"@,
        ).unwrap()
    &&& forall|i: int|
        0 <= i < frames.len() ==> (#[trigger] m.frames@[i]).cels@.len() == spec_frame_cels(
            frames[i],
        ).len()
    &&& forall|i: int, c: int|
        0 <= i < frames.len() && 0 <= c < spec_frame_cels(frames[i]).len() ==> (
        #[trigger] m.frames@[i].cels@[c]).opacity == jv_get_bits(
            spec_frame_cels(frames[i])[c],
            "opacity"@,
        ).unwrap()
    &&& forall|i: int, c: int|
        0 <= i < frames.len() && 0 <= c < spec_frame_cels(frames[i]).len() ==> (
        #[trigger] m.frames@[i].cels@[c]).image_index == spec_cels_before(frames, i) + c
    &&& m.layers@.len() == layers.len()
    &&& forall|i: int|
        0 <= i < layers.len() ==> (#[trigger] m.layers@[i]).name@ == jv_get_str(
            layers[i],
            "name"@,
        ).unwrap()@
    &&& forall|i: int|
        0 <= i < layers.len() ==> (#[trigger] m.layers@[i]).visible == jv_get_bool(
            layers[i],
            "visible"@,
        ).unwrap()
    &&& m.tags@.len() == tags.len()
    &&& forall|i: int|
        0 <= i < tags.len() ==> (#[trigger] m.tags@[i]).name@ == jv_get_str(
            tags[i],
            "name"@,
        ).unwrap()@
    &&& forall|i: int|
        0 <= i < tags.len() ==> (#[trigger] m.tags@[i]).from == trunc_usize(jv_get_int(
            tags[i],
            "from"@,
        ).unwrap())
    &&& forall|i: int|
        0 <= i < tags.len() ==> (#[trigger] m.tags@[i]).to == trunc_usize(jv_get_int(
            tags[i],
            "to"@,
        ).unwrap())
}

/// Validates and maps a metadata document into a [`Meta`].
///
/// Succeeds exactly on documents `meta_ok` accepts; any missing key or
/// wrongly-typed value fails the whole parse with
/// [`PxoError::UnexpectedJson`] and no partial metadata. On success the
/// result is exactly the metadata the document describes, image indices
/// assigned frame-major in cel order.
pub fn parse_meta(j: &JsonValue) -> (r: Result<Meta, PxoError>)
    ensures
        r.is_ok() <==> meta_ok(*j),
        r.is_ok() ==> meta_matches(*j, r.unwrap()),
        r is Err ==> r matches Err(PxoError::UnexpectedJson),
{
    let entries = match j {
        JsonValue::Obj(e) => e,
        _ => {
            return Err(PxoError::UnexpectedJson);
        },
    };

    let key_size_x = "size_x".to_owned();
    let key_size_y = "size_y".to_owned();
    let key_fps = "fps".to_owned();
    let key_frames = "frames".to_owned();
    let key_layers = "layers".to_owned();
    let key_tags = "tags".to_owned();

    let width64 = match obj_get(entries, &key_size_x) {
        Some(JsonValue::Num { uint: Some(x), .. }) => *x,
        _ => {
            return Err(PxoError::UnexpectedJson);
        },
    };
    let height64 = match obj_get(entries, &key_size_y) {
        Some(JsonValue::Num { uint: Some(x), .. }) => *x,
        _ => {
            return Err(PxoError::UnexpectedJson);
        },
    };
    let fps = match obj_get(entries, &key_fps) {
        Some(JsonValue::Num { bits: Some(b), .. }) => *b,
        _ => {
            return Err(PxoError::UnexpectedJson);
        },
    };

    let frames_arr = match obj_get(entries, &key_frames) {
        Some(JsonValue::Arr(a)) => a,
        _ => {
            return Err(PxoError::UnexpectedJson);
        },
    };
    proof {
        assert(jv_get_arr(*j, "frames"@) == Some(frames_arr@));
    }
    let frames = match parse_frames(frames_arr) {
        Ok(f) => f,
        Err(e) => {
            proof {
                if meta_ok(*j) {
                    assert forall|k: int| 0 <= k < frames_arr@.len() implies frame_ok(
                        #[trigger] frames_arr@[k],
                    ) by {
                        assert(frame_ok(jv_get_arr(*j, "frames"@).unwrap()[k]));
                    }
                }
            }
            return Err(e);
        },
    };

    let layers_arr = match obj_get(entries, &key_layers) {
        Some(JsonValue::Arr(a)) => a,
        _ => {
            return Err(PxoError::UnexpectedJson);
        },
    };
    proof {
        assert(jv_get_arr(*j, "layers"@) == Some(layers_arr@));
    }
    let layers = match parse_layers(layers_arr) {
        Ok(l) => l,
        Err(e) => {
            proof {
                if meta_ok(*j) {
                    assert forall|k: int| 0 <= k < layers_arr@.len() implies layer_ok(
                        #[trigger] layers_arr@[k],
                    ) by {
                        assert(layer_ok(jv_get_arr(*j, "layers"@).unwrap()[k]));
                    }
                }
            }
            return Err(e);
        },
    };

    let tags_arr = match obj_get(entries, &key_tags) {
        Some(JsonValue::Arr(a)) => a,
        _ => {
            return Err(PxoError::UnexpectedJson);
        },
    };
    proof {
        assert(jv_get_arr(*j, "tags"@) == Some(tags_arr@));
    }
    let tags = match parse_tags(tags_arr) {
        Ok(t) => t,
        Err(e) => {
            proof {
                if meta_ok(*j) {
                    assert forall|k: int| 0 <= k < tags_arr@.len() implies tag_ok(
                        #[trigger] tags_arr@[k],
                    ) by {
                        assert(tag_ok(jv_get_arr(*j, "tags"@).unwrap()[k]));
                    }
                }
            }
            return Err(e);
        },
    };

    let width = #[verifier::truncate] (width64 as u32);
    let height = #[verifier::truncate] (height64 as u32);
    let m = Meta { width, height, fps, frames, layers, tags };
    proof {
        let fseq = jv_get_arr(*j, "frames"@).unwrap();
        let lseq = jv_get_arr(*j, "layers"@).unwrap();
        let tseq = jv_get_arr(*j, "tags"@).unwrap();
        assert forall|k: int| 0 <= k < fseq.len() implies frame_ok(#[trigger] fseq[k]) by {
            assert(frame_ok(frames_arr@[k]));
        }
        assert forall|k: int| 0 <= k < lseq.len() implies layer_ok(#[trigger] lseq[k]) by {
            assert(layer_ok(layers_arr@[k]));
        }
        assert forall|k: int| 0 <= k < tseq.len() implies tag_ok(#[trigger] tseq[k]) by {
            assert(tag_ok(tags_arr@[k]));
        }
        assert(meta_ok(*j));
        assert(meta_matches(*j, m));
    }
    Ok(m)
}

/// Validates the `frames` array and assigns dense image indices,
/// frame-major in cel order.
fn parse_frames(frames_arr: &Vec<JsonValue>) -> (r: Result<Vec<Frame>, PxoError>)
    ensures
        r.is_ok() <==> ((forall|i: int|
            0 <= i < frames_arr@.len() ==> frame_ok(#[trigger] frames_arr@[i]))
            && spec_cels_before(frames_arr@, frames_arr@.len() as int) <= usize::MAX),
        r.is_ok() ==> {
            let fs = r.unwrap()@;
            &&& fs.len() == frames_arr@.len()
            &&& forall|i: int|
                0 <= i < fs.len() ==> (#[trigger] fs[i]).duration == jv_get_bits(
                    frames_arr@[i],
                    "duration"@,
                ).unwrap()
            &&& forall|i: int|
                0 <= i < fs.len() ==> (#[trigger] fs[i]).cels@.len() == spec_frame_cels(
                    frames_arr@[i],
                ).len()
            &&& forall|i: int, c: int|
                0 <= i < fs.len() && 0 <= c < spec_frame_cels(frames_arr@[i]).len() ==> (
                #[trigger] fs[i].cels@[c]).opacity == jv_get_bits(
                    spec_frame_cels(frames_arr@[i])[c],
                    "opacity"@,
                ).unwrap()
            &&& forall|i: int, c: int|
                0 <= i < fs.len() && 0 <= c < spec_frame_cels(frames_arr@[i]).len() ==> (
                #[trigger] fs[i].cels@[c]).image_index == spec_cels_before(frames_arr@, i) + c
        },
        r is Err ==> r matches Err(PxoError::UnexpectedJson),
{
    let key_duration = "duration".to_owned();
    let key_cels = "cels".to_owned();
    let key_opacity = "opacity".to_owned();

    let n = frames_arr.len();
    let mut out: Vec<Frame> = Vec::new();
    let mut image_index: usize = 0;
    let mut i: usize = 0;
    while i < n
        invariant
            n == frames_arr@.len(),
            i <= n,
            key_duration@ == "duration"@,
            key_cels@ == "cels"@,
            key_opacity@ == "opacity"@,
            out@.len() == i,
            image_index == spec_cels_before(frames_arr@, i as int),
            forall|k: int| 0 <= k < i ==> frame_ok(#[trigger] frames_arr@[k]),
            forall|k: int|
                0 <= k < i ==> (#[trigger] out@[k]).duration == jv_get_bits(
                    frames_arr@[k],
                    "duration"@,
                ).unwrap(),
            forall|k: int|
                0 <= k < i ==> (#[trigger] out@[k]).cels@.len() == spec_frame_cels(
                    frames_arr@[k],
                ).len(),
            forall|k: int, c: int|
                0 <= k < i && 0 <= c < spec_frame_cels(frames_arr@[k]).len() ==> (
                #[trigger] out@[k].cels@[c]).opacity == jv_get_bits(
                    spec_frame_cels(frames_arr@[k])[c],
                    "opacity"@,
                ).unwrap(),
            forall|k: int, c: int|
                0 <= k < i && 0 <= c < spec_frame_cels(frames_arr@[k]).len() ==> (
                #[trigger] out@[k].cels@[c]).image_index == spec_cels_before(frames_arr@, k) + c,
        decreases n - i,
    {
        let frame_entries = match &frames_arr[i] {
            JsonValue::Obj(e) => e,
            _ => {
                return Err(PxoError::UnexpectedJson);
            },
        };
        let duration = match obj_get(frame_entries, &key_duration) {
            Some(JsonValue::Num { bits: Some(b), .. }) => *b,
            _ => {
                return Err(PxoError::UnexpectedJson);
            },
        };
        let cels_arr = match obj_get(frame_entries, &key_cels) {
            Some(JsonValue::Arr(a)) => a,
            _ => {
                return Err(PxoError::UnexpectedJson);
            },
        };

        let m = cels_arr.len();
        let mut cels: Vec<Cel> = Vec::new();
        let mut c: usize = 0;
        while c < m
            invariant
                m == cels_arr@.len(),
                c <= m,
                key_opacity@ == "opacity"@,
                spec_frame_cels(frames_arr@[i as int]) == cels_arr@,
                i < n == frames_arr@.len(),
                cels@.len() == c,
                image_index == spec_cels_before(frames_arr@, i as int) + c,
                forall|k: int| 0 <= k < c ==> cel_ok(#[trigger] cels_arr@[k]),
                forall|k: int|
                    0 <= k < c ==> (#[trigger] cels@[k]).opacity == jv_get_bits(
                        cels_arr@[k],
                        "opacity"@,
                    ).unwrap(),
                forall|k: int|
                    0 <= k < c ==> (#[trigger] cels@[k]).image_index == spec_cels_before(
                        frames_arr@,
                        i as int,
                    ) + k,
            decreases m - c,
        {
            let cel_entries = match &cels_arr[c] {
                JsonValue::Obj(e) => e,
                _ => {
                    return Err(PxoError::UnexpectedJson);
                },
            };
            let opacity = match obj_get(cel_entries, &key_opacity) {
                Some(JsonValue::Num { bits: Some(b), .. }) => *b,
                _ => {
                    return Err(PxoError::UnexpectedJson);
                },
            };
            if image_index == usize::MAX {
                proof {
                    lemma_cels_before_mono(frames_arr@, i as int + 1, frames_arr@.len() as int);
                }
                return Err(PxoError::UnexpectedJson);
            }
            cels.push(Cel { opacity, image_index });
            image_index = image_index + 1;
            c = c + 1;
        }
        out.push(Frame { duration, cels });
        i = i + 1;
    }
    Ok(out)
}

/// Validates the `layers` array.
fn parse_layers(layers_arr: &Vec<JsonValue>) -> (r: Result<Vec<Layer>, PxoError>)
    ensures
        r.is_ok() <==> (forall|i: int|
            0 <= i < layers_arr@.len() ==> layer_ok(#[trigger] layers_arr@[i])),
        r.is_ok() ==> {
            let ls = r.unwrap()@;
            &&& ls.len() == layers_arr@.len()
            &&& forall|i: int|
                0 <= i < ls.len() ==> (#[trigger] ls[i]).name@ == jv_get_str(
                    layers_arr@[i],
                    "name"@,
                ).unwrap()@
            &&& forall|i: int|
                0 <= i < ls.len() ==> (#[trigger] ls[i]).visible == jv_get_bool(
                    layers_arr@[i],
                    "visible"@,
                ).unwrap()
        },
        r is Err ==> r matches Err(PxoError::UnexpectedJson),
{
    let key_name = "name".to_owned();
    let key_visible = "visible".to_owned();

    let n = layers_arr.len();
    let mut out: Vec<Layer> = Vec::new();
    let mut i: usize = 0;
    while i < n
        invariant
            n == layers_arr@.len(),
            i <= n,
            key_name@ == "name"@,
            key_visible@ == "visible"@,
            out@.len() == i,
            forall|k: int| 0 <= k < i ==> layer_ok(#[trigger] layers_arr@[k]),
            forall|k: int|
                0 <= k < i ==> (#[trigger] out@[k]).name@ == jv_get_str(
                    layers_arr@[k],
                    "name"@,
                ).unwrap()@,
            forall|k: int|
                0 <= k < i ==> (#[trigger] out@[k]).visible == jv_get_bool(
                    layers_arr@[k],
                    "visible"@,
                ).unwrap(),
        decreases n - i,
    {
        let layer_entries = match &layers_arr[i] {
            JsonValue::Obj(e) => e,
            _ => {
                return Err(PxoError::UnexpectedJson);
            },
        };
        let name = match obj_get(layer_entries, &key_name) {
            Some(JsonValue::Str(s)) => s.clone(),
            _ => {
                return Err(PxoError::UnexpectedJson);
            },
        };
        let visible = match obj_get(layer_entries, &key_visible) {
            Some(JsonValue::Bool(b)) => *b,
            _ => {
                return Err(PxoError::UnexpectedJson);
            },
        };
        out.push(Layer { name, visible });
        i = i + 1;
    }
    Ok(out)
}

/// Validates the `tags` array.
fn parse_tags(tags_arr: &Vec<JsonValue>) -> (r: Result<Vec<Tag>, PxoError>)
    ensures
        r.is_ok() <==> (forall|i: int| 0 <= i < tags_arr@.len() ==> tag_ok(#[trigger] tags_arr@[i])),
        r.is_ok() ==> {
            let ts = r.unwrap()@;
            &&& ts.len() == tags_arr@.len()
            &&& forall|i: int|
                0 <= i < ts.len() ==> (#[trigger] ts[i]).name@ == jv_get_str(
                    tags_arr@[i],
                    "name"@,
                ).unwrap()@
            &&& forall|i: int|
                0 <= i < ts.len() ==> (#[trigger] ts[i]).from == trunc_usize(jv_get_int(
                    tags_arr@[i],
                    "from"@,
                ).unwrap())
            &&& forall|i: int|
                0 <= i < ts.len() ==> (#[trigger] ts[i]).to == trunc_usize(jv_get_int(
                    tags_arr@[i],
                    "to"@,
                ).unwrap())
        },
        r is Err ==> r matches Err(PxoError::UnexpectedJson),
{
    let key_name = "name".to_owned();
    let key_from = "from".to_owned();
    let key_to = "to".to_owned();

    let n = tags_arr.len();
    let mut out: Vec<Tag> = Vec::new();
    let mut i: usize = 0;
    while i < n
        invariant
            n == tags_arr@.len(),
            i <= n,
            key_name@ == "name"@,
            key_from@ == "from"@,
            key_to@ == "to"@,
            out@.len() == i,
            forall|k: int| 0 <= k < i ==> tag_ok(#[trigger] tags_arr@[k]),
            forall|k: int|
                0 <= k < i ==> (#[trigger] out@[k]).name@ == jv_get_str(
                    tags_arr@[k],
                    "name"@,
                ).unwrap()@,
            forall|k: int|
                0 <= k < i ==> (#[trigger] out@[k]).from == trunc_usize(jv_get_int(
                    tags_arr@[k],
                    "from"@,
                ).unwrap()),
            forall|k: int|
                0 <= k < i ==> (#[trigger] out@[k]).to == trunc_usize(jv_get_int(
                    tags_arr@[k],
                    "to"@,
                ).unwrap()),
        decreases n - i,
    {
        let tag_entries = match &tags_arr[i] {
            JsonValue::Obj(e) => e,
            _ => {
                return Err(PxoError::UnexpectedJson);
            },
        };
        let from64 = match obj_get(tag_entries, &key_from) {
            Some(JsonValue::Num { uint: Some(x), .. }) => *x,
            _ => {
                return Err(PxoError::UnexpectedJson);
            },
        };
        let to64 = match obj_get(tag_entries, &key_to) {
            Some(JsonValue::Num { uint: Some(x), .. }) => *x,
            _ => {
                return Err(PxoError::UnexpectedJson);
            },
        };
        let name = match obj_get(tag_entries, &key_name) {
            Some(JsonValue::Str(s)) => s.clone(),
            _ => {
                return Err(PxoError::UnexpectedJson);
            },
        };
        let from = #[verifier::truncate] (from64 as usize);
        let to = #[verifier::truncate] (to64 as usize);
        out.push(Tag { name, from, to });
        i = i + 1;
    }
    Ok(out)
}

} // verus!
