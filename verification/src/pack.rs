use vstd::prelude::*;

use crate::error::PxoError;
use crate::images::Image;
use crate::meta::Tag;
use crate::sprite::Sprite;

verus! {

#[verifier::external_type_specification]
#[verifier::external_body]
#[verifier::reject_recursive_types(RectToPlaceId)]
#[verifier::reject_recursive_types(GroupId)]
pub struct ExGroupedRects<RectToPlaceId, GroupId>(
    rectangle_pack::GroupedRectsToPlace<RectToPlaceId, GroupId>,
) where
    RectToPlaceId: core::fmt::Debug + core::hash::Hash + Eq + Ord + PartialOrd,
    GroupId: core::fmt::Debug + core::hash::Hash + Eq + Ord + PartialOrd;

/// The rectangles a `GroupedRectsToPlace` holds: for each id, the width
/// and height it was pushed with.
pub uninterp spec fn rects_of(g: rectangle_pack::GroupedRectsToPlace<usize, usize>) -> Map<
    usize,
    (u32, u32),
>;

/// A collection that holds no rectangles at all.
pub open spec fn spec_no_rects(g: rectangle_pack::GroupedRectsToPlace<usize, usize>) -> bool {
    rects_of(g) == Map::<usize, (u32, u32)>::empty()
}

/// Relies on `GroupedRectsToPlace::new`: a freshly created collection
/// holds no rectangles.
#[verifier::external_body]
fn rects_new() -> (r: rectangle_pack::GroupedRectsToPlace<usize, usize>)
    ensures
        spec_no_rects(r),
{
    rectangle_pack::GroupedRectsToPlace::new()
}

/// Relies on `GroupedRectsToPlace::push_rect`: records one ungrouped
/// rectangle of the given size under the given id, replacing any earlier
/// rectangle with that id.
#[verifier::external_body]
fn rects_push(
    g: &mut rectangle_pack::GroupedRectsToPlace<usize, usize>,
    id: usize,
    width: u32,
    height: u32,
)
    ensures
        rects_of(*final(g)) == rects_of(*old(g)).insert(id, (width, height)),
{
    g.push_rect(id, None, rectangle_pack::RectToInsert::new(width, height, 1));
}

/// Two axis-aligned rectangles share no pixel.
pub open spec fn spec_rects_disjoint(
    x1: int,
    y1: int,
    w1: int,
    h1: int,
    x2: int,
    y2: int,
    w2: int,
    h2: int,
) -> bool {
    x1 + w1 <= x2 || x2 + w2 <= x1 || y1 + h1 <= y2 || y2 + h2 <= y1
}

/// What the rectangle packer makes of a set of rectangles and one bin of
/// the given bounds: `Some` of one placement per rectangle id when every
/// rectangle can be placed, `None` otherwise. A pure function of the
/// rectangle map and the bounds: the packer walks ordered maps and sorts
/// with deterministic heuristics.
pub uninterp spec fn pack_of(
    rects: Map<usize, (u32, u32)>,
    max_width: u32,
    max_height: u32,
) -> Option<Map<usize, (u32, u32)>>;

/// Relies on `rectangle_pack::pack_rects` against a single
/// `TargetBin::new(max_width, max_height, 1)`: on success every pushed
/// rectangle is placed exactly once, each placement's offset plus its
/// rectangle's size staying within the bin, and placements of distinct
/// ids are pairwise disjoint (bin sections are split and never reused);
/// the only failure is `NotEnoughBinSpace`. The outcome is the named
/// `pack_of`; the result is converted to `(id, x, y)` triples.
#[verifier::external_body]
fn pack_into_bin(
    g: &rectangle_pack::GroupedRectsToPlace<usize, usize>,
    max_width: u32,
    max_height: u32,
) -> (r: Result<Vec<(usize, u32, u32)>, PxoError>)
    ensures
        r is Ok <==> pack_of(rects_of(*g), max_width, max_height) is Some,
        r matches Ok(v) ==> {
            let pm = pack_of(rects_of(*g), max_width, max_height).unwrap();
            &&& forall|i: int|
                0 <= i < v@.len() ==> rects_of(*g).dom().contains((#[trigger] v@[i]).0)
            &&& forall|i: int|
                0 <= i < v@.len() ==> pm.dom().contains((#[trigger] v@[i]).0) && pm[v@[i].0] == (
                v@[i].1, v@[i].2)
            &&& forall|i: int|
                0 <= i < v@.len() ==> (#[trigger] v@[i]).1 + rects_of(*g)[v@[i].0].0 <= max_width
            &&& forall|i: int|
                0 <= i < v@.len() ==> (#[trigger] v@[i]).2 + rects_of(*g)[v@[i].0].1 <= max_height
            &&& forall|id: usize|
                rects_of(*g).dom().contains(id) ==> exists|i: int|
                    0 <= i < v@.len() && (#[trigger] v@[i]).0 == id
            &&& forall|id1: usize, id2: usize|
                #![trigger pm[id1], pm[id2]]
                rects_of(*g).dom().contains(id1) && rects_of(*g).dom().contains(id2) && id1 != id2
                    ==> spec_rects_disjoint(
                    pm[id1].0 as int,
                    pm[id1].1 as int,
                    rects_of(*g)[id1].0 as int,
                    rects_of(*g)[id1].1 as int,
                    pm[id2].0 as int,
                    pm[id2].1 as int,
                    rects_of(*g)[id2].0 as int,
                    rects_of(*g)[id2].1 as int,
                )
        },
        r is Err ==> r matches Err(PxoError::RectanglePack),
{
    let mut bins = std::collections::BTreeMap::new();
    bins.insert(0usize, rectangle_pack::TargetBin::new(max_width, max_height, 1));
    match rectangle_pack::pack_rects(
        g,
        &mut bins,
        &rectangle_pack::volume_heuristic,
        &rectangle_pack::contains_smallest_box,
    ) {
        Ok(p) => Ok(
            p.packed_locations().iter().map(|(id, (_bin, loc))| (*id, loc.x(), loc.y())).collect(),
        ),
        Err(_) => Err(PxoError::RectanglePack),
    }
}

/// Where one frame of a packed sprite lies in the shared atlas.
#[derive(Clone, Copy, Debug)]
pub struct PackedFrame {
    /// How long the frame is shown, in seconds, as 64-bit float bits.
    pub duration: u64,
    /// The x position of the frame's image inside the atlas.
    pub x_offset: u32,
    /// The y position of the frame's image inside the atlas.
    pub y_offset: u32,
}

/// A sprite whose frame images have been moved into a shared atlas: the
/// animation data stays, each frame holding its placement instead of its
/// pixels.
#[derive(Clone, Debug)]
pub struct PackedSprite {
    /// The width of the sprite in pixels.
    pub width: u32,
    /// The height of the sprite in pixels.
    pub height: u32,
    /// The frames-per-second rate, as 64-bit float bits.
    pub fps: u64,
    /// The sprite's tags, carried over verbatim.
    pub tags: Vec<Tag>,
    /// One placement record per frame, in frame order.
    pub frames: Vec<PackedFrame>,
}

/// A sprite is internally consistent: one duration per frame image, and
/// every frame image of the sprite's dimensions.
pub open spec fn sprite_wf(s: Sprite) -> bool {
    &&& s.durations@.len() == s.images@.len()
    &&& forall|f: int|
        0 <= f < s.images@.len() ==> (#[trigger] s.images@[f]).width == s.width
            && s.images@[f].height == s.height && s.images@[f].wf()
}

/// How many frames the first `s` sprites hold together: rectangle ids are
/// assigned densely in this order.
pub open spec fn spec_frames_before(sprites: Seq<Sprite>, s: int) -> int
    decreases s,
{
    if s <= 0 {
        0
    } else {
        spec_frames_before(sprites, s - 1) + sprites[s - 1].images@.len()
    }
}

/// The dimensions of the sprite owning rectangle id `id`, ids counted
/// densely frame-major across the sprites.
pub open spec fn spec_dims_of_id(sprites: Seq<Sprite>, id: int) -> (u32, u32)
    decreases sprites.len(),
{
    if sprites.len() == 0 {
        (0u32, 0u32)
    } else if id < sprites[0].images@.len() {
        (sprites[0].width, sprites[0].height)
    } else {
        spec_dims_of_id(sprites.drop_first(), id - sprites[0].images@.len())
    }
}

/// One rectangle per frame of the first ids, of the owning sprite's
/// dimensions, keyed by dense frame-major id.
pub open spec fn spec_rect_map_upto(sprites: Seq<Sprite>, n: int) -> Map<usize, (u32, u32)> {
    Map::new(|id: usize| id < n, |id: usize| spec_dims_of_id(sprites, id as int))
}

/// The full rectangle map of a batch: one entry per (sprite, frame) pair.
pub open spec fn spec_rect_map(sprites: Seq<Sprite>) -> Map<usize, (u32, u32)> {
    spec_rect_map_upto(sprites, spec_frames_before(sprites, sprites.len() as int))
}

/// Dropping the first sprite shifts the frame-count prefix sums by that
/// sprite's frame count.
proof fn lemma_frames_before_drop_first(sprites: Seq<Sprite>, i: int)
    requires
        sprites.len() > 0,
        0 <= i < sprites.len(),
    ensures
        spec_frames_before(sprites.drop_first(), i) == spec_frames_before(sprites, i + 1)
            - sprites[0].images@.len(),
    decreases i,
{
    let d = sprites.drop_first();
    if i == 0 {
        assert(spec_frames_before(d, 0) == 0);
        assert(spec_frames_before(sprites, 1) == spec_frames_before(sprites, 0)
            + sprites[0].images@.len());
    } else {
        lemma_frames_before_drop_first(sprites, i - 1);
        assert(d[i - 1] == sprites[i]);
        assert(spec_frames_before(d, i) == spec_frames_before(d, i - 1) + d[i - 1].images@.len());
        assert(spec_frames_before(sprites, i + 1) == spec_frames_before(sprites, i)
            + sprites[i].images@.len());
    }
}

/// The id `base of sprite s + f` carries sprite `s`'s dimensions.
proof fn lemma_dims_of_id(sprites: Seq<Sprite>, s: int, f: int)
    requires
        0 <= s < sprites.len(),
        0 <= f < sprites[s].images@.len(),
    ensures
        spec_dims_of_id(sprites, spec_frames_before(sprites, s) + f) == (
            sprites[s].width,
            sprites[s].height,
        ),
    decreases s,
{
    if s == 0 {
        assert(spec_frames_before(sprites, 0) == 0);
    } else {
        let d = sprites.drop_first();
        let id = spec_frames_before(sprites, s) + f;
        lemma_frames_before_mono(sprites, 1, s);
        assert(spec_frames_before(sprites, 0) == 0);
        assert(spec_frames_before(sprites, 1) == sprites[0].images@.len());
        assert(id >= sprites[0].images@.len());
        assert(spec_dims_of_id(sprites, id) == spec_dims_of_id(
            d,
            id - sprites[0].images@.len(),
        ));
        lemma_frames_before_drop_first(sprites, s - 1);
        assert(id - sprites[0].images@.len() == spec_frames_before(d, s - 1) + f);
        assert(d[s - 1] == sprites[s]);
        lemma_dims_of_id(d, s - 1, f);
    }
}

/// The dense id of frame `f` of sprite `s`.
pub open spec fn spec_id_at(sprites: Seq<Sprite>, s: int, f: int) -> int {
    spec_frames_before(sprites, s) + f
}

/// Every id below the total decomposes as a sprite's base plus a frame
/// index of that sprite.
proof fn lemma_id_decompose(sprites: Seq<Sprite>, id: int)
    requires
        0 <= id < spec_frames_before(sprites, sprites.len() as int),
    ensures
        exists|s: int, f: int|
            0 <= s < sprites.len() && 0 <= f < sprites[s].images@.len() && id
                == #[trigger] spec_id_at(sprites, s, f),
    decreases sprites.len(),
{
    if sprites.len() > 0 {
        if id < sprites[0].images@.len() {
            assert(spec_frames_before(sprites, 0) == 0);
            assert(0 <= 0 < sprites.len() && 0 <= id < sprites[0].images@.len() && id
                == spec_id_at(sprites, 0, id));
        } else {
            lemma_frames_before_drop_first(sprites, sprites.len() as int - 1);
            lemma_id_decompose(sprites.drop_first(), id - sprites[0].images@.len());
            let (s2, f2) = choose|s2: int, f2: int|
                0 <= s2 < sprites.drop_first().len() && 0 <= f2 < sprites.drop_first()[s2].images@.len()
                    && id - sprites[0].images@.len() == #[trigger] spec_id_at(
                    sprites.drop_first(),
                    s2,
                    f2,
                );
            lemma_frames_before_drop_first(sprites, s2);
            assert(sprites.drop_first()[s2] == sprites[s2 + 1]);
            assert(0 <= s2 + 1 < sprites.len() && 0 <= f2 < sprites[s2 + 1].images@.len() && id
                == spec_id_at(sprites, s2 + 1, f2));
        }
    }
}

/// Distinct (sprite, frame) pairs have distinct dense ids.
proof fn lemma_ids_distinct(sprites: Seq<Sprite>, s1: int, f1: int, s2: int, f2: int)
    requires
        0 <= s1 < sprites.len(),
        0 <= f1 < sprites[s1].images@.len(),
        0 <= s2 < sprites.len(),
        0 <= f2 < sprites[s2].images@.len(),
        s1 != s2 || f1 != f2,
    ensures
        spec_frames_before(sprites, s1) + f1 != spec_frames_before(sprites, s2) + f2,
{
    if s1 < s2 {
        lemma_frames_before_mono(sprites, s1 + 1, s2);
    } else if s2 < s1 {
        lemma_frames_before_mono(sprites, s2 + 1, s1);
    }
}

/// The point `(px, py)` lies inside the axis-aligned rectangle at
/// `(x0, y0)` of size `w x h`.
pub open spec fn spec_px_in_rect(px: int, py: int, x0: int, y0: int, w: int, h: int) -> bool {
    x0 <= px < x0 + w && y0 <= py < y0 + h
}

/// Every pixel of `img` stands in `atlas` at offset `(x0, y0)`.
pub open spec fn spec_frame_in_atlas(atlas: Image, img: Image, x0: int, y0: int) -> bool {
    forall|px: int, py: int|
        0 <= px < img.width && 0 <= py < img.height ==> #[trigger] atlas.spec_pixel_xy(
            x0 + px,
            y0 + py,
        ) == img.spec_pixel_xy(px, py)
}

/// No placement of `packed` covers the point `(px, py)`.
pub open spec fn spec_uncovered(
    sprites: Seq<Sprite>,
    packed: Seq<PackedSprite>,
    px: int,
    py: int,
) -> bool {
    forall|s: int, f: int|
        0 <= s < sprites.len() && 0 <= f < sprites[s].images@.len() ==> !spec_px_in_rect(
            px,
            py,
            (#[trigger] packed[s].frames@[f]).x_offset as int,
            packed[s].frames@[f].y_offset as int,
            sprites[s].width as int,
            sprites[s].height as int,
        )
}

/// The furthest right extent among the placements of the ids below `n`.
pub open spec fn spec_extent_w(
    pm: Map<usize, (u32, u32)>,
    rm: Map<usize, (u32, u32)>,
    n: int,
) -> int
    decreases n,
{
    if n <= 0 {
        0
    } else {
        let prev = spec_extent_w(pm, rm, n - 1);
        let e = pm[(n - 1) as usize].0 + rm[(n - 1) as usize].0;
        if e > prev {
            e
        } else {
            prev
        }
    }
}

/// The furthest bottom extent among the placements of the ids below `n`.
pub open spec fn spec_extent_h(
    pm: Map<usize, (u32, u32)>,
    rm: Map<usize, (u32, u32)>,
    n: int,
) -> int
    decreases n,
{
    if n <= 0 {
        0
    } else {
        let prev = spec_extent_h(pm, rm, n - 1);
        let e = pm[(n - 1) as usize].1 + rm[(n - 1) as usize].1;
        if e > prev {
            e
        } else {
            prev
        }
    }
}

proof fn lemma_extent_w_le(pm: Map<usize, (u32, u32)>, rm: Map<usize, (u32, u32)>, n: int, bound: int)
    requires
        bound >= 0,
        forall|id: int|
            0 <= id < n ==> (#[trigger] pm[id as usize]).0 + rm[id as usize].0 <= bound,
    ensures
        spec_extent_w(pm, rm, n) <= bound,
    decreases n,
{
    if n > 0 {
        lemma_extent_w_le(pm, rm, n - 1, bound);
    }
}

proof fn lemma_extent_h_le(pm: Map<usize, (u32, u32)>, rm: Map<usize, (u32, u32)>, n: int, bound: int)
    requires
        bound >= 0,
        forall|id: int|
            0 <= id < n ==> (#[trigger] pm[id as usize]).1 + rm[id as usize].1 <= bound,
    ensures
        spec_extent_h(pm, rm, n) <= bound,
    decreases n,
{
    if n > 0 {
        lemma_extent_h_le(pm, rm, n - 1, bound);
    }
}

proof fn lemma_extent_w_attained(pm: Map<usize, (u32, u32)>, rm: Map<usize, (u32, u32)>, n: int, id: int)
    requires
        0 <= id < n,
    ensures
        pm[id as usize].0 + rm[id as usize].0 <= spec_extent_w(pm, rm, n),
    decreases n,
{
    if id < n - 1 {
        lemma_extent_w_attained(pm, rm, n - 1, id);
    }
}

proof fn lemma_extent_h_attained(pm: Map<usize, (u32, u32)>, rm: Map<usize, (u32, u32)>, n: int, id: int)
    requires
        0 <= id < n,
    ensures
        pm[id as usize].1 + rm[id as usize].1 <= spec_extent_h(pm, rm, n),
    decreases n,
{
    if id < n - 1 {
        lemma_extent_h_attained(pm, rm, n - 1, id);
    }
}

proof fn lemma_extent_nonneg(pm: Map<usize, (u32, u32)>, rm: Map<usize, (u32, u32)>, n: int)
    ensures
        spec_extent_w(pm, rm, n) >= 0,
        spec_extent_h(pm, rm, n) >= 0,
    decreases n,
{
    if n > 0 {
        lemma_extent_nonneg(pm, rm, n - 1);
    }
}

/// The trimmed width of a successful pack's atlas: the furthest right
/// placement extent.
pub open spec fn spec_atlas_w(sprites: Seq<Sprite>, max_width: u32, max_height: u32) -> int {
    spec_extent_w(
        pack_of(spec_rect_map(sprites), max_width, max_height).unwrap(),
        spec_rect_map(sprites),
        spec_frames_before(sprites, sprites.len() as int),
    )
}

/// The trimmed height of a successful pack's atlas: the furthest bottom
/// placement extent.
pub open spec fn spec_atlas_h(sprites: Seq<Sprite>, max_width: u32, max_height: u32) -> int {
    spec_extent_h(
        pack_of(spec_rect_map(sprites), max_width, max_height).unwrap(),
        spec_rect_map(sprites),
        spec_frames_before(sprites, sprites.len() as int),
    )
}

/// Packing succeeds on exactly these inputs: the rectangle ids fit the
/// machine, the packer places every rectangle, and the trimmed atlas is
/// allocatable.
pub open spec fn spec_pack_ok(sprites: Seq<Sprite>, max_width: u32, max_height: u32) -> bool {
    &&& spec_frames_before(sprites, sprites.len() as int) <= usize::MAX
    &&& pack_of(spec_rect_map(sprites), max_width, max_height) is Some
    &&& spec_atlas_w(sprites, max_width, max_height) * spec_atlas_h(sprites, max_width, max_height)
        * 4 <= usize::MAX
}

/// Every frame whose dense id lies below `n` has its pixels in the atlas
/// at its placement.
pub open spec fn spec_placed_upto(
    atlas: Image,
    sprites: Seq<Sprite>,
    pm: Map<usize, (u32, u32)>,
    n: int,
) -> bool {
    forall|s3: int, f3: int|
        0 <= s3 < sprites.len() && 0 <= f3 < sprites[s3].images@.len() && spec_frames_before(
            sprites,
            s3,
        ) + f3 < n ==> spec_frame_in_atlas(
            atlas,
            sprites[s3].images@[f3],
            (#[trigger] pm[(spec_frames_before(sprites, s3) + f3) as usize]).0 as int,
            pm[(spec_frames_before(sprites, s3) + f3) as usize].1 as int,
        )
}

/// Every atlas pixel covered by no placement of an id below `n` is still
/// transparent.
pub open spec fn spec_clear_upto(
    atlas: Image,
    pm: Map<usize, (u32, u32)>,
    rm: Map<usize, (u32, u32)>,
    n: int,
) -> bool {
    forall|px: int, py: int|
        0 <= px < atlas.width && 0 <= py < atlas.height && (forall|id: int|
            0 <= id < n ==> !spec_px_in_rect(
                px,
                py,
                (#[trigger] pm[id as usize]).0 as int,
                pm[id as usize].1 as int,
                rm[id as usize].0 as int,
                rm[id as usize].1 as int,
            )) ==> #[trigger] atlas.spec_pixel_xy(px, py) == crate::sprite::transparent_px()
}

/// The packed sprites mirror the input sprites — dimensions, rate, tags
/// and durations. Every placement keeps its frame inside the atlas, which
/// fits the requested bounds; placements are pairwise disjoint, every
/// frame's pixels stand in the atlas at its offsets, and every pixel no
/// placement covers is transparent.
pub open spec fn spec_packed(
    sprites: Seq<Sprite>,
    max_width: u32,
    max_height: u32,
    packed: Seq<PackedSprite>,
    atlas: Image,
) -> bool {
    &&& atlas.wf()
    &&& atlas.width <= max_width
    &&& atlas.height <= max_height
    &&& packed.len() == sprites.len()
    &&& forall|s: int|
        0 <= s < sprites.len() ==> {
            let p = #[trigger] packed[s];
            &&& p.width == sprites[s].width
            &&& p.height == sprites[s].height
            &&& p.fps == sprites[s].fps
            &&& p.tags@ == sprites[s].tags@
            &&& p.frames@.len() == sprites[s].images@.len()
        }
    &&& forall|s: int, f: int|
        0 <= s < sprites.len() && 0 <= f < sprites[s].images@.len() ==> (#[trigger] packed[s].frames@[f]).duration
            == sprites[s].durations@[f]
    &&& forall|s: int, f: int|
        0 <= s < sprites.len() && 0 <= f < sprites[s].images@.len() ==> (#[trigger] packed[s].frames@[f]).x_offset
            + sprites[s].width <= atlas.width && packed[s].frames@[f].y_offset + sprites[s].height
            <= atlas.height
    &&& forall|s1: int, f1: int, s2: int, f2: int|
        #![trigger packed[s1].frames@[f1], packed[s2].frames@[f2]]
        0 <= s1 < sprites.len() && 0 <= f1 < sprites[s1].images@.len() && 0 <= s2 < sprites.len()
            && 0 <= f2 < sprites[s2].images@.len() && (s1 != s2 || f1 != f2)
            ==> spec_rects_disjoint(
            packed[s1].frames@[f1].x_offset as int,
            packed[s1].frames@[f1].y_offset as int,
            sprites[s1].width as int,
            sprites[s1].height as int,
            packed[s2].frames@[f2].x_offset as int,
            packed[s2].frames@[f2].y_offset as int,
            sprites[s2].width as int,
            sprites[s2].height as int,
        )
    &&& forall|s: int, f: int|
        0 <= s < sprites.len() && 0 <= f < sprites[s].images@.len() ==> spec_frame_in_atlas(
            atlas,
            sprites[s].images@[f],
            (#[trigger] packed[s].frames@[f]).x_offset as int,
            packed[s].frames@[f].y_offset as int,
        )
    &&& forall|px: int, py: int|
        0 <= px < atlas.width && 0 <= py < atlas.height && spec_uncovered(sprites, packed, px, py)
            ==> #[trigger] atlas.spec_pixel_xy(px, py) == crate::sprite::transparent_px()
}

impl PackedSprite {
    /// Packs every frame of every sprite into one shared atlas image.
    ///
    /// Each frame is placed as a `width x height` rectangle of its sprite
    /// into a single `max_width x max_height` bin; failure to fit is
    /// [`PxoError::RectanglePack`] with nothing returned. On success the
    /// atlas is trimmed to the furthest right and bottom extents of the
    /// placements, every frame's pixels are copied in at its offsets with
    /// no blending, and the placements are returned per sprite, in frame
    /// order.
    pub fn pack_sprites(sprites: Vec<Sprite>, max_width: u32, max_height: u32) -> (r: Result<
        (Vec<PackedSprite>, Image),
        PxoError,
    >)
        requires
            forall|s: int| 0 <= s < sprites@.len() ==> sprite_wf(#[trigger] sprites@[s]),
        ensures
            r.is_ok() <==> spec_pack_ok(sprites@, max_width, max_height),
            pack_of(spec_rect_map(sprites@), max_width, max_height) is None ==> r matches Err(
                PxoError::RectanglePack,
            ),
            r matches Ok((packed, atlas)) ==> spec_packed(
                sprites@,
                max_width,
                max_height,
                packed@,
                atlas,
            ),
            r matches Ok((packed, atlas)) ==> atlas.width == spec_atlas_w(
                sprites@,
                max_width,
                max_height,
            ) && atlas.height == spec_atlas_h(sprites@, max_width, max_height),
            r is Err ==> r matches Err(PxoError::RectanglePack) || r matches Err(
                PxoError::SpriteConversion,
            ),
    {
        let ns = sprites.len();

        // Push one rectangle per (sprite, frame), under a dense id in
        // frame-major order.
        let mut rects = rects_new();
        proof {
            assert(rects_of(rects) =~= spec_rect_map_upto(sprites@, 0));
        }
        let mut id: usize = 0;
        let mut s: usize = 0;
        while s < ns
            invariant
                ns == sprites@.len(),
                s <= ns,
                forall|s2: int| 0 <= s2 < ns ==> sprite_wf(#[trigger] sprites@[s2]),
                id == spec_frames_before(sprites@, s as int),
                rects_of(rects) == spec_rect_map_upto(sprites@, id as int),
            decreases ns - s,
        {
            let nf = sprites[s].images.len();
            let mut f: usize = 0;
            while f < nf
                invariant
                    ns == sprites@.len(),
                    s < ns,
                    nf == sprites@[s as int].images@.len(),
                    f <= nf,
                    forall|s2: int| 0 <= s2 < ns ==> sprite_wf(#[trigger] sprites@[s2]),
                    id == spec_frames_before(sprites@, s as int) + f,
                    rects_of(rects) == spec_rect_map_upto(sprites@, id as int),
                decreases nf - f,
            {
                if id == usize::MAX {
                    proof {
                        assert(spec_frames_before(sprites@, s as int + 1) == spec_frames_before(
                            sprites@,
                            s as int,
                        ) + nf);
                        lemma_frames_before_mono(sprites@, s as int + 1, ns as int);
                        assert(spec_frames_before(sprites@, ns as int) > usize::MAX);
                    }
                    return Err(PxoError::RectanglePack);
                }
                rects_push(&mut rects, id, sprites[s].width, sprites[s].height);
                proof {
                    lemma_dims_of_id(sprites@, s as int, f as int);
                    assert(rects_of(rects) =~= spec_rect_map_upto(sprites@, id as int + 1));
                }
                id = id + 1;
                f = f + 1;
            }
            s = s + 1;
        }
        let total: usize = id;
        let ghost rm = rects_of(rects);
        proof {
            assert(rm == spec_rect_map(sprites@));
            assert(rm.dom() =~= Set::new(|i2: usize| i2 < total));
            assert forall|s2: int, f2: int|
                0 <= s2 < ns && 0 <= f2 < sprites@[s2].images@.len() implies (#[trigger] rm[(
            spec_frames_before(sprites@, s2) + f2) as usize]) == (
                sprites@[s2].width,
                sprites@[s2].height,
            ) by {
                lemma_dims_of_id(sprites@, s2, f2);
                lemma_frames_before_mono(sprites@, 0, s2);
                lemma_frames_before_mono(sprites@, s2 + 1, ns as int);
                assert(spec_frames_before(sprites@, s2 + 1) == spec_frames_before(sprites@, s2)
                    + sprites@[s2].images@.len());
            }
        }

        let placements = match pack_into_bin(&rects, max_width, max_height) {
            Ok(v) => v,
            Err(e) => {
                return Err(e);
            },
        };
        let np = placements.len();
        let ghost pm = pack_of(rm, max_width, max_height).unwrap();

        // The atlas is trimmed to the furthest extents of the placements.
        let mut atlas_w: u32 = 0;
        let mut atlas_h: u32 = 0;
        let mut i: usize = 0;
        while i < np
            invariant
                np == placements@.len(),
                i <= np,
                rm == rects_of(rects),
                rm == spec_rect_map(sprites@),
                rm.dom() =~= Set::new(|i2: usize| i2 < total),
                total == spec_frames_before(sprites@, ns as int),
                ns == sprites@.len(),
                pack_of(rm, max_width, max_height) is Some,
                pm == pack_of(rm, max_width, max_height).unwrap(),
                forall|s2: int, f2: int|
                    0 <= s2 < ns && 0 <= f2 < sprites@[s2].images@.len() ==> (#[trigger] rm[(
                    spec_frames_before(sprites@, s2) + f2) as usize]) == (
                    sprites@[s2].width, sprites@[s2].height),
                forall|k: int| 0 <= k < np ==> rm.dom().contains((#[trigger] placements@[k]).0),
                forall|k: int|
                    0 <= k < np ==> pm.dom().contains((#[trigger] placements@[k]).0) && pm[(
                    placements@[k]).0] == (placements@[k].1, placements@[k].2),
                forall|k: int|
                    0 <= k < np ==> (#[trigger] placements@[k]).1 + rm[placements@[k].0].0
                        <= max_width,
                forall|k: int|
                    0 <= k < np ==> (#[trigger] placements@[k]).2 + rm[placements@[k].0].1
                        <= max_height,
                forall|id1: usize|
                    rm.dom().contains(id1) ==> exists|k: int|
                        0 <= k < np && (#[trigger] placements@[k]).0 == id1,
                atlas_w <= max_width,
                atlas_h <= max_height,
                forall|k: int|
                    0 <= k < i ==> (#[trigger] placements@[k]).1 + rm[placements@[k].0].0
                        <= atlas_w,
                forall|k: int|
                    0 <= k < i ==> (#[trigger] placements@[k]).2 + rm[placements@[k].0].1
                        <= atlas_h,
                atlas_w == 0 || exists|k: int|
                    0 <= k < i && (#[trigger] placements@[k]).1 + rm[placements@[k].0].0
                        == atlas_w,
                atlas_h == 0 || exists|k: int|
                    0 <= k < i && (#[trigger] placements@[k]).2 + rm[placements@[k].0].1
                        == atlas_h,
            decreases np - i,
        {
            let (pid, x, y) = placements[i];
            proof {
                assert(rm.dom().contains(pid));
            }
            let (w, h) = rect_dims_for(&sprites, pid, total, Ghost(rm));
            proof {
                assert(rm[pid] == (w, h));
            }
            if atlas_w < x + w {
                atlas_w = x + w;
            }
            if atlas_h < y + h {
                atlas_h = y + h;
            }
            i = i + 1;
        }

        proof {
            assert forall|id3: int| 0 <= id3 < total implies (#[trigger] pm[id3 as usize]).0 + rm[(
            id3 as usize)].0 <= atlas_w && pm[id3 as usize].1 + rm[id3 as usize].1 <= atlas_h by {
                assert(rm.dom().contains(id3 as usize));
                let k = choose|k: int| 0 <= k < np && (#[trigger] placements@[k]).0 == id3 as usize;
                assert(pm[placements@[k].0] == (placements@[k].1, placements@[k].2));
            }
            lemma_extent_w_le(pm, rm, total as int, atlas_w as int);
            lemma_extent_h_le(pm, rm, total as int, atlas_h as int);
            if atlas_w != 0 {
                let k = choose|k: int|
                    0 <= k < np && (#[trigger] placements@[k]).1 + rm[placements@[k].0].0
                        == atlas_w;
                let idw = placements@[k].0;
                assert(rm.dom().contains(idw));
                assert(pm[idw] == (placements@[k].1, placements@[k].2));
                lemma_extent_w_attained(pm, rm, total as int, idw as int);
            } else {
                lemma_extent_nonneg(pm, rm, total as int);
            }
            if atlas_h != 0 {
                let k = choose|k: int|
                    0 <= k < np && (#[trigger] placements@[k]).2 + rm[placements@[k].0].1
                        == atlas_h;
                let idh = placements@[k].0;
                assert(rm.dom().contains(idh));
                assert(pm[idh] == (placements@[k].1, placements@[k].2));
                lemma_extent_h_attained(pm, rm, total as int, idh as int);
            } else {
                lemma_extent_nonneg(pm, rm, total as int);
            }
            assert(atlas_w == spec_extent_w(pm, rm, total as int));
            assert(atlas_h == spec_extent_h(pm, rm, total as int));
            assert(atlas_w == spec_atlas_w(sprites@, max_width, max_height));
            assert(atlas_h == spec_atlas_h(sprites@, max_width, max_height));
        }

        let mut atlas = match Image::new_transparent(atlas_w, atlas_h) {
            Some(img) => img,
            None => {
                proof {
                    assert(!spec_pack_ok(sprites@, max_width, max_height));
                }
                return Err(PxoError::SpriteConversion);
            },
        };
        proof {
            assert forall|px: int, py: int|
                0 <= px < atlas.width && 0 <= py < atlas.height implies #[trigger] atlas.spec_pixel_xy(
                px,
                py,
            ) == crate::sprite::transparent_px() by {
                lemma_rowmajor_in_range(atlas.width as int, atlas.height as int, px, py);
                assert((py * atlas.width + px) * 4 + 4 <= atlas.width * atlas.height * 4)
                    by (nonlinear_arith)
                    requires
                        0 <= py * atlas.width + px < atlas.width * atlas.height,
                ;
                assert(atlas.spec_pixel_xy(px, py) =~= crate::sprite::transparent_px());
            }
            assert forall|s3: int, f3: int|
                0 <= s3 < sprites@.len() && 0 <= f3 < sprites@[s3].images@.len()
                    && spec_frames_before(sprites@, s3) + f3 < 0 implies spec_frame_in_atlas(
                atlas,
                sprites@[s3].images@[f3],
                (#[trigger] pm[(spec_frames_before(sprites@, s3) + f3) as usize]).0 as int,
                pm[(spec_frames_before(sprites@, s3) + f3) as usize].1 as int,
            ) by {
                lemma_frames_before_mono(sprites@, 0, s3);
            }
            assert(spec_placed_upto(atlas, sprites@, pm, 0));
            assert(spec_clear_upto(atlas, pm, rm, 0));
        }

        // Build the per-sprite placement records and copy the pixels in.
        let mut packed: Vec<PackedSprite> = Vec::new();
        let mut id2: usize = 0;
        let mut s2: usize = 0;
        while s2 < ns
            invariant
                ns == sprites@.len(),
                s2 <= ns,
                forall|s3: int| 0 <= s3 < ns ==> sprite_wf(#[trigger] sprites@[s3]),
                id2 == spec_frames_before(sprites@, s2 as int),
                rm == rects_of(rects),
                rm == spec_rect_map(sprites@),
                rm.dom() =~= Set::new(|i2: usize| i2 < total),
                spec_frames_before(sprites@, ns as int) == total,
                pack_of(rm, max_width, max_height) is Some,
                pm == pack_of(rm, max_width, max_height).unwrap(),
                forall|s3: int, f3: int|
                    0 <= s3 < ns && 0 <= f3 < sprites@[s3].images@.len() ==> (#[trigger] rm[(
                    spec_frames_before(sprites@, s3) + f3) as usize]) == (
                    sprites@[s3].width, sprites@[s3].height),
                np == placements@.len(),
                forall|k: int| 0 <= k < np ==> rm.dom().contains((#[trigger] placements@[k]).0),
                forall|k: int|
                    0 <= k < np ==> pm.dom().contains((#[trigger] placements@[k]).0) && pm[(
                    placements@[k]).0] == (placements@[k].1, placements@[k].2),
                forall|id1: usize|
                    rm.dom().contains(id1) ==> exists|k: int|
                        0 <= k < np && (#[trigger] placements@[k]).0 == id1,
                forall|id1: usize, id2b: usize|
                    #![trigger pm[id1], pm[id2b]]
                    rm.dom().contains(id1) && rm.dom().contains(id2b) && id1 != id2b
                        ==> spec_rects_disjoint(
                        pm[id1].0 as int,
                        pm[id1].1 as int,
                        rm[id1].0 as int,
                        rm[id1].1 as int,
                        pm[id2b].0 as int,
                        pm[id2b].1 as int,
                        rm[id2b].0 as int,
                        rm[id2b].1 as int,
                    ),
                forall|id3: int|
                    0 <= id3 < total ==> (#[trigger] pm[id3 as usize]).0 + rm[id3 as usize].0
                        <= atlas_w && pm[id3 as usize].1 + rm[id3 as usize].1 <= atlas_h,
                atlas.width == atlas_w,
                atlas.height == atlas_h,
                atlas.wf(),
                atlas_w * atlas_h * 4 <= usize::MAX,
                atlas_w <= max_width,
                atlas_h <= max_height,
                atlas_w == spec_atlas_w(sprites@, max_width, max_height),
                atlas_h == spec_atlas_h(sprites@, max_width, max_height),
                spec_placed_upto(atlas, sprites@, pm, id2 as int),
                spec_clear_upto(atlas, pm, rm, id2 as int),
                packed@.len() == s2,
                forall|s3: int|
                    0 <= s3 < s2 ==> {
                        let p = #[trigger] packed@[s3];
                        &&& p.width == sprites@[s3].width
                        &&& p.height == sprites@[s3].height
                        &&& p.fps == sprites@[s3].fps
                        &&& p.tags@ == sprites@[s3].tags@
                        &&& p.frames@.len() == sprites@[s3].images@.len()
                    },
                forall|s3: int, f3: int|
                    0 <= s3 < s2 && 0 <= f3 < sprites@[s3].images@.len() ==> (
                    #[trigger] packed@[s3].frames@[f3]).duration == sprites@[s3].durations@[f3],
                forall|s3: int, f3: int|
                    0 <= s3 < s2 && 0 <= f3 < sprites@[s3].images@.len() ==> ((
                    #[trigger] packed@[s3].frames@[f3]).x_offset, packed@[s3].frames@[f3].y_offset)
                        == pm[(spec_frames_before(sprites@, s3) + f3) as usize],
            decreases ns - s2,
        {
            let sprite_w = sprites[s2].width;
            let sprite_h = sprites[s2].height;
            let nf = sprites[s2].images.len();
            proof {
                lemma_frames_before_mono(sprites@, s2 as int + 1, ns as int);
                assert(spec_frames_before(sprites@, s2 as int + 1) == spec_frames_before(
                    sprites@,
                    s2 as int,
                ) + nf);
            }
            let mut frames: Vec<PackedFrame> = Vec::new();
            let mut f2: usize = 0;
            while f2 < nf
                invariant
                    ns == sprites@.len(),
                    s2 < ns,
                    nf == sprites@[s2 as int].images@.len(),
                    f2 <= nf,
                    sprite_w == sprites@[s2 as int].width,
                    sprite_h == sprites@[s2 as int].height,
                    forall|s3: int| 0 <= s3 < ns ==> sprite_wf(#[trigger] sprites@[s3]),
                    id2 == spec_frames_before(sprites@, s2 as int) + f2,
                    id2 + (nf - f2) <= total,
                    rm == rects_of(rects),
                    rm == spec_rect_map(sprites@),
                    rm.dom() =~= Set::new(|i2: usize| i2 < total),
                    spec_frames_before(sprites@, ns as int) == total,
                    pack_of(rm, max_width, max_height) is Some,
                    pm == pack_of(rm, max_width, max_height).unwrap(),
                    forall|s3: int, f3: int|
                        0 <= s3 < ns && 0 <= f3 < sprites@[s3].images@.len() ==> (#[trigger] rm[(
                        spec_frames_before(sprites@, s3) + f3) as usize]) == (
                        sprites@[s3].width, sprites@[s3].height),
                    np == placements@.len(),
                    forall|k: int| 0 <= k < np ==> rm.dom().contains((#[trigger] placements@[k]).0),
                    forall|k: int|
                        0 <= k < np ==> pm.dom().contains((#[trigger] placements@[k]).0) && pm[(
                        placements@[k]).0] == (placements@[k].1, placements@[k].2),
                    forall|id1: usize|
                        rm.dom().contains(id1) ==> exists|k: int|
                            0 <= k < np && (#[trigger] placements@[k]).0 == id1,
                    forall|id1: usize, id2b: usize|
                        #![trigger pm[id1], pm[id2b]]
                        rm.dom().contains(id1) && rm.dom().contains(id2b) && id1 != id2b
                            ==> spec_rects_disjoint(
                            pm[id1].0 as int,
                            pm[id1].1 as int,
                            rm[id1].0 as int,
                            rm[id1].1 as int,
                            pm[id2b].0 as int,
                            pm[id2b].1 as int,
                            rm[id2b].0 as int,
                            rm[id2b].1 as int,
                        ),
                    forall|id3: int|
                        0 <= id3 < total ==> (#[trigger] pm[id3 as usize]).0 + rm[id3 as usize].0
                            <= atlas_w && pm[id3 as usize].1 + rm[id3 as usize].1 <= atlas_h,
                    atlas.width == atlas_w,
                    atlas.height == atlas_h,
                    atlas.wf(),
                    atlas_w * atlas_h * 4 <= usize::MAX,
                    spec_placed_upto(atlas, sprites@, pm, id2 as int),
                    spec_clear_upto(atlas, pm, rm, id2 as int),
                    frames@.len() == f2,
                    forall|f3: int|
                        0 <= f3 < f2 ==> (#[trigger] frames@[f3]).duration
                            == sprites@[s2 as int].durations@[f3],
                    forall|f3: int|
                        0 <= f3 < f2 ==> ((#[trigger] frames@[f3]).x_offset, frames@[f3].y_offset)
                            == pm[(spec_frames_before(sprites@, s2 as int) + f3) as usize],
                decreases nf - f2,
            {
                proof {
                    assert(rm.dom().contains(id2));
                    assert(rm[(spec_frames_before(sprites@, s2 as int) + f2 as int) as usize]
                        == (sprite_w, sprite_h));
                    assert(rm[id2] == (sprite_w, sprite_h));
                }
                let (x, y) = find_placement(&placements, id2);
                proof {
                    let k = choose|k: int|
                        0 <= k < placements@.len() && (#[trigger] placements@[k]).0 == id2
                            && placements@[k].1 == x && placements@[k].2 == y;
                    assert(pm[id2] == (x, y));
                    assert(x + sprite_w <= atlas_w && y + sprite_h <= atlas_h);
                }
                frames.push(
                    PackedFrame { duration: sprites[s2].durations[f2], x_offset: x, y_offset: y },
                );
                let ghost atlas0 = atlas;
                blit(&mut atlas, &sprites[s2].images[f2], x, y);
                proof {
                    let img = sprites@[s2 as int].images@[f2 as int];
                    assert forall|s3: int, f3: int|
                        0 <= s3 < ns && 0 <= f3 < sprites@[s3].images@.len()
                            && spec_frames_before(sprites@, s3) + f3 < id2 + 1 implies spec_frame_in_atlas(
                        atlas,
                        sprites@[s3].images@[f3],
                        (#[trigger] pm[(spec_frames_before(sprites@, s3) + f3) as usize]).0 as int,
                        pm[(spec_frames_before(sprites@, s3) + f3) as usize].1 as int,
                    ) by {
                        let id3 = spec_frames_before(sprites@, s3) + f3;
                        lemma_frames_before_mono(sprites@, 0, s3);
                        assert(0 <= id3 <= id2);
                        if id3 == id2 {
                            if s3 != s2 || f3 != f2 {
                                lemma_ids_distinct(sprites@, s3, f3, s2 as int, f2 as int);
                            }
                            assert forall|px: int, py: int|
                                0 <= px < img.width && 0 <= py < img.height implies #[trigger] atlas.spec_pixel_xy(
                                x + px,
                                y + py,
                            ) == img.spec_pixel_xy(px, py) by {}
                        } else {
                            let i3 = sprites@[s3].images@[f3];
                            let x3 = pm[id3 as usize].0 as int;
                            let y3 = pm[id3 as usize].1 as int;
                            assert(rm.dom().contains((id3 as usize)));
                            assert(rm[id3 as usize] == (sprites@[s3].width, sprites@[s3].height));
                            assert(spec_rects_disjoint(
                                x3,
                                y3,
                                i3.width as int,
                                i3.height as int,
                                x as int,
                                y as int,
                                sprite_w as int,
                                sprite_h as int,
                            ));
                            assert forall|px: int, py: int|
                                0 <= px < i3.width && 0 <= py < i3.height implies #[trigger] atlas.spec_pixel_xy(
                                x3 + px,
                                y3 + py,
                            ) == i3.spec_pixel_xy(px, py) by {
                                assert(atlas0.spec_pixel_xy(x3 + px, y3 + py) == i3.spec_pixel_xy(
                                    px,
                                    py,
                                ));
                                assert(!(x <= x3 + px < x + sprite_w && y <= y3 + py < y
                                    + sprite_h));
                            }
                        }
                    }
                    assert(spec_placed_upto(atlas, sprites@, pm, id2 as int + 1));
                    assert forall|px: int, py: int|
                        0 <= px < atlas.width && 0 <= py < atlas.height && (forall|id3: int|
                            0 <= id3 < id2 + 1 ==> !spec_px_in_rect(
                                px,
                                py,
                                (#[trigger] pm[id3 as usize]).0 as int,
                                pm[id3 as usize].1 as int,
                                rm[id3 as usize].0 as int,
                                rm[id3 as usize].1 as int,
                            )) implies #[trigger] atlas.spec_pixel_xy(px, py)
                        == crate::sprite::transparent_px() by {
                        assert(!spec_px_in_rect(
                            px,
                            py,
                            pm[id2].0 as int,
                            pm[id2].1 as int,
                            rm[id2].0 as int,
                            rm[id2].1 as int,
                        ));
                        assert(atlas.spec_pixel_xy(px, py) == atlas0.spec_pixel_xy(px, py));
                        assert(atlas0.spec_pixel_xy(px, py) == crate::sprite::transparent_px());
                    }
                    assert(spec_clear_upto(atlas, pm, rm, id2 as int + 1));
                }
                id2 = id2 + 1;
                f2 = f2 + 1;
            }
            packed.push(
                PackedSprite {
                    width: sprite_w,
                    height: sprite_h,
                    fps: sprites[s2].fps,
                    tags: clone_tags(&sprites[s2].tags),
                    frames,
                },
            );
            s2 = s2 + 1;
        }
        proof {
            assert(id2 == total);
            // Disjointness, frame content and clear pixels over the packed
            // records, from the id-level facts.
            assert forall|sa: int, fa: int, sb: int, fb2: int|
                #![trigger packed@[sa].frames@[fa], packed@[sb].frames@[fb2]]
                0 <= sa < ns && 0 <= fa < sprites@[sa].images@.len() && 0 <= sb < ns && 0 <= fb2
                    < sprites@[sb].images@.len() && (sa != sb || fa != fb2) implies spec_rects_disjoint(
                packed@[sa].frames@[fa].x_offset as int,
                packed@[sa].frames@[fa].y_offset as int,
                sprites@[sa].width as int,
                sprites@[sa].height as int,
                packed@[sb].frames@[fb2].x_offset as int,
                packed@[sb].frames@[fb2].y_offset as int,
                sprites@[sb].width as int,
                sprites@[sb].height as int,
            ) by {
                let ida = spec_frames_before(sprites@, sa) + fa;
                let idb = spec_frames_before(sprites@, sb) + fb2;
                lemma_ids_distinct(sprites@, sa, fa, sb, fb2);
                lemma_frames_before_mono(sprites@, 0, sa);
                lemma_frames_before_mono(sprites@, 0, sb);
                lemma_frames_before_mono(sprites@, sa + 1, ns as int);
                lemma_frames_before_mono(sprites@, sb + 1, ns as int);
                assert(spec_frames_before(sprites@, sa + 1) == spec_frames_before(sprites@, sa)
                    + sprites@[sa].images@.len());
                assert(spec_frames_before(sprites@, sb + 1) == spec_frames_before(sprites@, sb)
                    + sprites@[sb].images@.len());
                assert(rm.dom().contains((ida as usize)) && rm.dom().contains((idb as usize)));
                assert(rm[ida as usize] == (sprites@[sa].width, sprites@[sa].height));
                assert(rm[idb as usize] == (sprites@[sb].width, sprites@[sb].height));
            }
            assert forall|s3: int, f3: int|
                0 <= s3 < ns && 0 <= f3 < sprites@[s3].images@.len() implies spec_frame_in_atlas(
                atlas,
                sprites@[s3].images@[f3],
                (#[trigger] packed@[s3].frames@[f3]).x_offset as int,
                packed@[s3].frames@[f3].y_offset as int,
            ) by {
                lemma_frames_before_mono(sprites@, 0, s3);
                lemma_frames_before_mono(sprites@, s3 + 1, ns as int);
                assert(spec_frames_before(sprites@, s3 + 1) == spec_frames_before(sprites@, s3)
                    + sprites@[s3].images@.len());
            }
            assert forall|s3: int, f3: int|
                0 <= s3 < ns && 0 <= f3 < sprites@[s3].images@.len() implies (
            #[trigger] packed@[s3].frames@[f3]).x_offset + sprites@[s3].width <= atlas.width
                && packed@[s3].frames@[f3].y_offset + sprites@[s3].height <= atlas.height by {
                let id3 = spec_frames_before(sprites@, s3) + f3;
                lemma_frames_before_mono(sprites@, 0, s3);
                lemma_frames_before_mono(sprites@, s3 + 1, ns as int);
                assert(spec_frames_before(sprites@, s3 + 1) == spec_frames_before(sprites@, s3)
                    + sprites@[s3].images@.len());
                assert(rm[id3 as usize] == (sprites@[s3].width, sprites@[s3].height));
                assert(pm[id3 as usize].0 + rm[id3 as usize].0 <= atlas_w && pm[id3 as usize].1
                    + rm[id3 as usize].1 <= atlas_h);
                assert(((packed@[s3].frames@[f3]).x_offset, packed@[s3].frames@[f3].y_offset)
                    == pm[id3 as usize]);
            }
            assert forall|px: int, py: int|
                0 <= px < atlas.width && 0 <= py < atlas.height && spec_uncovered(
                    sprites@,
                    packed@,
                    px,
                    py,
                ) implies #[trigger] atlas.spec_pixel_xy(px, py)
                == crate::sprite::transparent_px() by {
                assert forall|id3: int| 0 <= id3 < total implies !spec_px_in_rect(
                    px,
                    py,
                    (#[trigger] pm[id3 as usize]).0 as int,
                    pm[id3 as usize].1 as int,
                    rm[id3 as usize].0 as int,
                    rm[id3 as usize].1 as int,
                ) by {
                    lemma_id_decompose(sprites@, id3);
                    let (s3, f3) = choose|s3: int, f3: int|
                        0 <= s3 < sprites@.len() && 0 <= f3 < sprites@[s3].images@.len() && id3
                            == #[trigger] spec_id_at(sprites@, s3, f3);
                    assert(rm.dom().contains((id3 as usize)));
                    assert(rm[id3 as usize] == (sprites@[s3].width, sprites@[s3].height));
                    assert(((packed@[s3].frames@[f3]).x_offset, packed@[s3].frames@[f3].y_offset)
                        == pm[id3 as usize]);
                    assert(!spec_px_in_rect(
                        px,
                        py,
                        packed@[s3].frames@[f3].x_offset as int,
                        packed@[s3].frames@[f3].y_offset as int,
                        sprites@[s3].width as int,
                        sprites@[s3].height as int,
                    ));
                }
            }
            assert(spec_packed(sprites@, max_width, max_height, packed@, atlas));
        }
        Ok((packed, atlas))
    }

    /// Packs a single sprite: a batch of one, returning its sole
    /// placement record and the atlas.
    pub fn pack_sprite(sprite: Sprite, max_width: u32, max_height: u32) -> (r: Result<
        (PackedSprite, Image),
        PxoError,
    >)
        requires
            sprite_wf(sprite),
        ensures
            r.is_ok() <==> spec_pack_ok(seq![sprite], max_width, max_height),
            pack_of(spec_rect_map(seq![sprite]), max_width, max_height) is None ==> r matches Err(
                PxoError::RectanglePack,
            ),
            r matches Ok((packed, atlas)) ==> spec_packed(
                seq![sprite],
                max_width,
                max_height,
                seq![packed],
                atlas,
            ),
            r matches Ok((packed, atlas)) ==> atlas.width == spec_atlas_w(
                seq![sprite],
                max_width,
                max_height,
            ) && atlas.height == spec_atlas_h(seq![sprite], max_width, max_height),
            r is Err ==> r matches Err(PxoError::RectanglePack) || r matches Err(
                PxoError::SpriteConversion,
            ),
    {
        let ghost sp = sprite;
        let batch: Vec<Sprite> = vec![sprite];
        proof {
            assert(batch@ =~= seq![sp]);
        }
        let (mut packed, atlas) = match Self::pack_sprites(batch, max_width, max_height) {
            Ok(pair) => pair,
            Err(e) => {
                return Err(e);
            },
        };
        let ghost allp = packed@;
        let first = packed.remove(0);
        proof {
            assert(allp =~= seq![first]);
        }
        Ok((first, atlas))
    }
}

/// The width and height that the rectangle with the given id was pushed
/// with: the dimensions of the sprite the id's frame belongs to, as the
/// given rectangle map records them.
fn rect_dims_for(sprites: &Vec<Sprite>, pid: usize, total: usize, rm: Ghost<
    Map<usize, (u32, u32)>,
>) -> (r: (u32, u32))
    requires
        pid < total,
        total == spec_frames_before(sprites@, sprites@.len() as int),
        forall|s: int, f: int|
            0 <= s < sprites@.len() && 0 <= f < sprites@[s].images@.len() ==> (#[trigger] rm@[(
            spec_frames_before(sprites@, s) + f) as usize]) == (sprites@[s].width, sprites@[s].height),
    ensures
        rm@[pid] == r,
{
    let ns = sprites.len();
    let mut s: usize = 0;
    let mut before: usize = 0;
    while s < ns
        invariant
            ns == sprites@.len(),
            s <= ns,
            before == spec_frames_before(sprites@, s as int),
            before <= pid,
            pid < spec_frames_before(sprites@, ns as int),
            spec_frames_before(sprites@, ns as int) <= usize::MAX,
            forall|s2: int, f2: int|
                0 <= s2 < ns && 0 <= f2 < sprites@[s2].images@.len() ==> (#[trigger] rm@[(
                spec_frames_before(sprites@, s2) + f2) as usize]) == (
                sprites@[s2].width, sprites@[s2].height),
        decreases ns - s,
    {
        let nf = sprites[s].images.len();
        proof {
            lemma_frames_before_mono(sprites@, s as int + 1, ns as int);
        }
        if pid - before < nf {
            proof {
                assert(rm@[(spec_frames_before(sprites@, s as int) + (pid - before)) as usize]
                    == (sprites@[s as int].width, sprites@[s as int].height));
            }
            return (sprites[s].width, sprites[s].height);
        }
        before = before + nf;
        s = s + 1;
    }
    proof {
        assert(false);
    }
    (0, 0)
}

/// Copies a tag list field by field, so the copy is known to equal the
/// source list entry for entry.
fn clone_tags(tags: &Vec<Tag>) -> (r: Vec<Tag>)
    ensures
        r@ == tags@,
{
    let n = tags.len();
    let mut out: Vec<Tag> = Vec::new();
    let mut i: usize = 0;
    while i < n
        invariant
            n == tags@.len(),
            i <= n,
            out@.len() == i,
            forall|k: int| 0 <= k < i ==> out@[k] == tags@[k],
        decreases n - i,
    {
        let t = Tag { name: tags[i].name.clone(), from: tags[i].from, to: tags[i].to };
        out.push(t);
        i = i + 1;
    }
    proof {
        assert(out@ =~= tags@);
    }
    out
}

/// Frame counts only accumulate over sprites.
proof fn lemma_frames_before_mono(sprites: Seq<Sprite>, i: int, j: int)
    requires
        0 <= i <= j,
    ensures
        spec_frames_before(sprites, i) <= spec_frames_before(sprites, j),
    decreases j - i,
{
    if i < j {
        lemma_frames_before_mono(sprites, i, j - 1);
    }
}

/// The placement with the given id. The packer places every pushed id, so
/// the id is found.
fn find_placement(placements: &Vec<(usize, u32, u32)>, pid: usize) -> (r: (u32, u32))
    requires
        exists|k: int|
            0 <= k < placements@.len() && (#[trigger] placements@[k]).0 == pid,
    ensures
        exists|k: int|
            0 <= k < placements@.len() && (#[trigger] placements@[k]).0 == pid
                && placements@[k].1 == r.0 && placements@[k].2 == r.1,
{
    let n = placements.len();
    let mut k: usize = 0;
    while k < n
        invariant
            n == placements@.len(),
            k <= n,
            exists|k2: int| k <= k2 < n && (#[trigger] placements@[k2]).0 == pid,
        decreases n - k,
    {
        let (id, x, y) = placements[k];
        if id == pid {
            return (x, y);
        }
        k = k + 1;
    }
    proof {
        assert(false);
    }
    (0, 0)
}

/// Distinct in-bounds pixel coordinates map to distinct row-major flat
/// indices.
proof fn lemma_rowmajor_distinct(w: int, x1: int, y1: int, x2: int, y2: int)
    requires
        0 <= x1 < w,
        0 <= x2 < w,
        x1 != x2 || y1 != y2,
    ensures
        y1 * w + x1 != y2 * w + x2,
{
    assert(y1 * w + x1 != y2 * w + x2) by (nonlinear_arith)
        requires
            0 <= x1 < w,
            0 <= x2 < w,
            x1 != x2 || y1 != y2,
    ;
}

/// A row-major flat index of in-bounds coordinates is in bounds.
proof fn lemma_rowmajor_in_range(w: int, h: int, px: int, py: int)
    requires
        0 <= px < w,
        0 <= py < h,
    ensures
        0 <= py * w + px < w * h,
{
    assert(0 <= py * w + px < w * h) by (nonlinear_arith)
        requires
            0 <= px < w,
            0 <= py < h,
    ;
}

/// Copies every pixel of `src` into `atlas` at offset `(x, y)`, with no
/// blending: a plain overwrite. Every pixel outside the copied rectangle
/// keeps its value.
fn blit(atlas: &mut Image, src: &Image, x: u32, y: u32)
    requires
        old(atlas).wf(),
        src.wf(),
        x + src.width <= old(atlas).width,
        y + src.height <= old(atlas).height,
    ensures
        final(atlas).wf(),
        final(atlas).width == old(atlas).width,
        final(atlas).height == old(atlas).height,
        forall|px: int, py: int|
            x <= px < x + src.width && y <= py < y + src.height
                ==> #[trigger] final(atlas).spec_pixel_xy(px, py) == src.spec_pixel_xy(
                px - x,
                py - y,
            ),
        forall|px: int, py: int|
            0 <= px < old(atlas).width && 0 <= py < old(atlas).height && !(x <= px < x + src.width
                && y <= py < y + src.height) ==> #[trigger] final(atlas).spec_pixel_xy(px, py)
                == old(atlas).spec_pixel_xy(px, py),
{
    let aw = atlas.width;
    let sw = src.width;
    let sh = src.height;
    let atlas_len: usize = atlas.data.len();
    let src_len: usize = src.data.len();
    proof {
        assert(atlas.width * atlas.height <= atlas_len && src.width * src.height <= src_len)
            by (nonlinear_arith)
            requires
                atlas.width * atlas.height * 4 == atlas_len,
                src.width * src.height * 4 == src_len,
                atlas.width >= 0,
                atlas.height >= 0,
                src.width >= 0,
                src.height >= 0,
        ;
    }
    let mut yy: u32 = 0;
    while yy < sh
        invariant
            atlas.wf(),
            src.wf(),
            atlas.width == old(atlas).width,
            atlas.height == old(atlas).height,
            aw == atlas.width,
            sw == src.width,
            sh == src.height,
            atlas.width * atlas.height <= usize::MAX,
            src.width * src.height <= usize::MAX,
            x + sw <= atlas.width,
            y + sh <= atlas.height,
            yy <= sh,
            forall|px: int, py: int|
                x <= px < x + sw && y <= py < y + yy ==> #[trigger] atlas.spec_pixel_xy(px, py)
                    == src.spec_pixel_xy(px - x, py - y),
            forall|px: int, py: int|
                0 <= px < atlas.width && 0 <= py < atlas.height && !(x <= px < x + sw && y <= py
                    < y + yy) ==> #[trigger] atlas.spec_pixel_xy(px, py) == old(
                    atlas,
                ).spec_pixel_xy(px, py),
        decreases sh - yy,
    {
        let mut xx: u32 = 0;
        while xx < sw
            invariant
                atlas.wf(),
                src.wf(),
                atlas.width == old(atlas).width,
                atlas.height == old(atlas).height,
                aw == atlas.width,
                sw == src.width,
                sh == src.height,
                atlas.width * atlas.height <= usize::MAX,
                src.width * src.height <= usize::MAX,
                x + sw <= atlas.width,
                y + sh <= atlas.height,
                yy < sh,
                xx <= sw,
                forall|px: int, py: int|
                    x <= px < x + sw && y <= py < y + yy ==> #[trigger] atlas.spec_pixel_xy(px, py)
                        == src.spec_pixel_xy(px - x, py - y),
                forall|px: int|
                    x <= px < x + xx ==> #[trigger] atlas.spec_pixel_xy(px, y + yy as int)
                        == src.spec_pixel_xy(px - x, yy as int),
                forall|px: int, py: int|
                    0 <= px < atlas.width && 0 <= py < atlas.height && !(x <= px < x + sw && y
                        <= py < y + yy) && !(y + yy == py && x <= px < x + xx)
                        ==> #[trigger] atlas.spec_pixel_xy(px, py) == old(atlas).spec_pixel_xy(
                        px,
                        py,
                    ),
            decreases sw - xx,
        {
            proof {
                lemma_rowmajor_in_range(sw as int, sh as int, xx as int, yy as int);
                lemma_rowmajor_in_range(
                    aw as int,
                    atlas.height as int,
                    x + xx as int,
                    y + yy as int,
                );
            }
            let src_q: usize = (yy as usize) * (sw as usize) + (xx as usize);
            let dst_q: usize = ((y + yy) as usize) * (aw as usize) + ((x + xx) as usize);
            let px4 = src.get_pixel(src_q);
            let ghost prev = *atlas;
            atlas.put_pixel(dst_q, px4);
            proof {
                assert(atlas.spec_pixel_xy(x + xx as int, y + yy as int) == src.spec_pixel_xy(
                    xx as int,
                    yy as int,
                ));
                assert forall|px: int, py: int|
                    0 <= px < atlas.width && 0 <= py < atlas.height && (px != x + xx || py != y
                        + yy) implies #[trigger] atlas.spec_pixel_xy(px, py)
                    == prev.spec_pixel_xy(px, py) by {
                    lemma_rowmajor_in_range(aw as int, atlas.height as int, px, py);
                    lemma_rowmajor_distinct(
                        aw as int,
                        px,
                        py,
                        x + xx as int,
                        y + yy as int,
                    );
                }
            }
            xx = xx + 1;
        }
        yy = yy + 1;
    }
}

} // verus!
