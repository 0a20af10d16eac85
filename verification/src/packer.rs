use std::collections::HashMap;
use std::sync::Arc;
use vstd::prelude::*;

use crate::options::RectHeuristic;
use crate::rectpack::{
    bin_frame, bin_rects, insert_rect, new_bin, rect_inside, rect_placement, rects_disjoint, PlacedRect,
};
use crate::texture::{Texture, TextureView};

verus! {

broadcast use vstd::std_specs::hash::group_hash_axioms;

/// The minimum allowed atlas side, in pixels.
pub const MIN_SIZE: u32 = 64;

/// The maximum allowed atlas (and texture) side, in pixels.
pub const MAX_SIZE: u32 = 8192;

/// The different error types that can occur when making a packer.
#[derive(Debug, Clone, Copy, PartialEq, Eq, Structural)]
pub enum PackerError {
    /// Invalid argument
    InvalidArg,
}

/// Where a texture went in the atlas.
#[derive(Debug, Clone, Copy, PartialEq, Eq, Structural)]
pub struct Point {
    /// is the x offset.
    pub x: i32,
    /// is the y offset.
    pub y: i32,
    /// is the duplicate ID: the index of the point of the texture this one
    /// repeats, or `usize::MAX` for a texture that was placed itself.
    pub duplicate_id: usize,
    /// is the flag determining whether rotated or not.
    pub rotate: bool,
}

impl Point {
    /// A point at the origin, not rotated, with duplicate ID 0.
    pub fn new() -> (p: Point)
        ensures
            p == (Point { x: 0, y: 0, duplicate_id: 0, rotate: false }),
    {
        Point { x: 0, y: 0, duplicate_id: 0, rotate: false }
    }

    /// The point of a texture `texture_width` wide that the bin placed at
    /// `rect` (padding included): at the corner of `rect`, marked as placed
    /// itself, and turned when turning was allowed and `rect` is not as
    /// wide as the padded texture.
    pub fn placed(rect: PlacedRect, texture_width: i32, padding: i32, rotate: bool) -> (p: Point)
        requires
            rect.width >= 0,
            padding >= 0,
        ensures
            p == (Point {
                x: rect.x,
                y: rect.y,
                duplicate_id: usize::MAX,
                rotate: rotate && texture_width != rect.width - padding,
            }),
    {
        Point {
            x: rect.x,
            y: rect.y,
            duplicate_id: usize::MAX,
            rotate: rotate && texture_width != rect.width - padding,
        }
    }
}

/// A valid atlas side: a power of two from 64 to 8192.
pub open spec fn valid_side(s: u32) -> bool {
    s == 64 || s == 128 || s == 256 || s == 512 || s == 1024 || s == 2048 || s == 4096 || s
        == 8192
}

/// The state of a packer: the atlas size, the padding between textures, the
/// mipmap hint, the textures placed so far with their points, and the point
/// index of each texture hash seen (for `unique` packing).
#[derive(Debug, Clone)]
pub struct PackerState {
    /// is the width.
    pub width: u32,
    /// is the height.
    pub height: u32,
    /// is the padding.
    pub padding: i32,
    /// is the flag determining whether mip maps should be generated (rendering hint).
    pub generate_mipmaps: bool,
    /// is the vector holding the packed textures.
    pub textures: Vec<Texture>,
    /// is the vector holding the point of each packed texture.
    pub points: Vec<Point>,
    /// is the map from texture hash to the index of the point where it was placed.
    pub duplicates: HashMap<u64, usize>,
}

/// The mathematical content of a packer state.
pub struct PackerStateView {
    pub width: u32,
    pub height: u32,
    pub padding: i32,
    pub generate_mipmaps: bool,
    pub textures: Seq<TextureView>,
    pub points: Seq<Point>,
    pub duplicates: Map<u64, usize>,
}

/// The views of a sequence of textures.
pub open spec fn views(ts: Seq<Texture>) -> Seq<TextureView> {
    ts.map_values(|t: Texture| t@)
}

impl View for PackerState {
    type V = PackerStateView;

    open spec fn view(&self) -> PackerStateView {
        PackerStateView {
            width: self.width,
            height: self.height,
            padding: self.padding,
            generate_mipmaps: self.generate_mipmaps,
            textures: views(self.textures@),
            points: self.points@,
            duplicates: self.duplicates@,
        }
    }
}

impl PackerState {
    /// A new, empty packer state.
    pub fn new(width: u32, height: u32, padding: i32, generate_mipmaps: bool) -> (s: PackerState)
        ensures
            s@ == (PackerStateView {
                width,
                height,
                padding,
                generate_mipmaps,
                textures: Seq::empty(),
                points: Seq::empty(),
                duplicates: Map::empty(),
            }),
    {
        let s = PackerState {
            width,
            height,
            padding,
            generate_mipmaps,
            textures: Vec::new(),
            points: Vec::new(),
            duplicates: HashMap::new(),
        };
        assert(views(s.textures@) =~= Seq::empty());
        s
    }
}

/// Packs textures into one atlas.
#[derive(Debug)]
pub struct Packer {
    /// is the packer state.
    pub state: PackerState,
}

/// Some texture, with `padding` added to each side, is wider than `width`
/// or taller than `height`.
pub open spec fn any_larger(ts: Seq<TextureView>, width: int, height: int, padding: int) -> bool {
    exists|i: int|
        0 <= i < ts.len() && (#[trigger] ts[i].width + padding > width || ts[i].height + padding
            > height)
}

/// The widest padded texture of `ts` (0 when there is none).
pub open spec fn max_need_w(ts: Seq<TextureView>, padding: int) -> int
    decreases ts.len(),
{
    if ts.len() == 0 {
        0
    } else {
        let m = max_need_w(ts.drop_last(), padding);
        let n = ts.last().width + padding;
        if n > m { n } else { m }
    }
}

/// The tallest padded texture of `ts` (0 when there is none).
pub open spec fn max_need_h(ts: Seq<TextureView>, padding: int) -> int
    decreases ts.len(),
{
    if ts.len() == 0 {
        0
    } else {
        let m = max_need_h(ts.drop_last(), padding);
        let n = ts.last().height + padding;
        if n > m { n } else { m }
    }
}

/// The smaller of two sides.
pub open spec fn min_side(w: int, h: int) -> int {
    if w < h { w } else { h }
}

/// One round of growing a `w` x `h` atlas for textures that need
/// `need_w` x `need_h`: when it is too narrow the width doubles and the
/// height is set to it; then, when it is too low, the height doubles and
/// the width is set to it.
pub open spec fn grow_round(need_w: int, need_h: int, w: int, h: int) -> (int, int) {
    let (w1, h1) = if need_w > w { (2 * w, 2 * w) } else { (w, h) };
    if need_h > h1 { (2 * h1, 2 * h1) } else { (w1, h1) }
}

/// A `w` x `h` atlas grown in rounds until it is at least
/// `need_w` x `need_h`; growing stops early when a side is 0 or already
/// beyond `MAX_SIZE`.
pub open spec fn grow_fit(need_w: int, need_h: int, w: int, h: int) -> (int, int)
    decreases 4 * MAX_SIZE - min_side(w, h),
{
    if (need_w > w || need_h > h) && 0 < w <= MAX_SIZE && 0 < h <= MAX_SIZE {
        grow_fit(need_w, need_h, grow_round(need_w, need_h, w, h).0, grow_round(need_w, need_h, w, h).1)
    } else {
        (w, h)
    }
}

/// `adjust_size_to_fit` run over `ts` from an atlas of `w` x `h`:
/// `(width, height, adjusted, ok)`. For each texture in turn the atlas is
/// grown until it holds every texture so far, padding included; `adjusted`
/// says that some texture did not fit as the atlas stood, and `ok` that
/// after each texture the atlas held them all within `MAX_SIZE` (each side
/// is raised to `MIN_SIZE` after every step).
pub open spec fn adjust_fold(ts: Seq<TextureView>, w: int, h: int, padding: int) -> (
    int,
    int,
    bool,
    bool,
)
    decreases ts.len(),
{
    if ts.len() == 0 {
        (w, h, false, true)
    } else {
        let prev = adjust_fold(ts.drop_last(), w, h, padding);
        let nw = max_need_w(ts, padding);
        let nh = max_need_h(ts, padding);
        let s = grow_fit(nw, nh, prev.0, prev.1);
        (
            if s.0 < MIN_SIZE { MIN_SIZE as int } else { s.0 },
            if s.1 < MIN_SIZE { MIN_SIZE as int } else { s.1 },
            prev.2 || nw > prev.0 || nh > prev.1,
            prev.3 && s.0 <= MAX_SIZE && s.1 <= MAX_SIZE && nw <= s.0 && nh <= s.1,
        )
    }
}

/// The widest and tallest padded textures bound each texture.
pub proof fn lemma_max_need_bounds(ts: Seq<TextureView>, padding: int)
    ensures
        forall|i: int|
            0 <= i < ts.len() ==> #[trigger] ts[i].width + padding <= max_need_w(ts, padding)
                && ts[i].height + padding <= max_need_h(ts, padding),
    decreases ts.len(),
{
    if ts.len() > 0 {
        lemma_max_need_bounds(ts.drop_last(), padding);
        assert forall|i: int| 0 <= i < ts.len() implies #[trigger] ts[i].width + padding
            <= max_need_w(ts, padding) && ts[i].height + padding <= max_need_h(ts, padding) by {
            if i < ts.len() - 1 {
                assert(ts.drop_last()[i] == ts[i]);
            }
        }
    }
}

/// When every padded texture fits within `w` x `h` (both at least 0), the
/// widest and tallest do.
pub proof fn lemma_max_need_fits(ts: Seq<TextureView>, padding: int, w: int, h: int)
    requires
        0 <= w,
        0 <= h,
        !any_larger(ts, w, h, padding),
    ensures
        max_need_w(ts, padding) <= w,
        max_need_h(ts, padding) <= h,
    decreases ts.len(),
{
    if ts.len() > 0 {
        assert forall|i: int| 0 <= i < ts.drop_last().len() implies !(#[trigger] ts.drop_last()[i].width
            + padding > w || ts.drop_last()[i].height + padding > h) by {
            assert(ts.drop_last()[i] == ts[i]);
        }
        lemma_max_need_fits(ts.drop_last(), padding, w, h);
        assert(!(ts[ts.len() - 1].width + padding > w || ts[ts.len() - 1].height + padding > h));
    }
}

/// Growing leaves the atlas as it was, or square; it grows (and so leaves
/// it square) whenever the atlas is too small and its sides are positive
/// and within `MAX_SIZE`.
pub proof fn lemma_grow_fit_square(need_w: int, need_h: int, w: int, h: int)
    ensures
        grow_fit(need_w, need_h, w, h) == (w, h) || grow_fit(need_w, need_h, w, h).0 == grow_fit(
            need_w,
            need_h,
            w,
            h,
        ).1,
        (need_w > w || need_h > h) && 0 < w <= MAX_SIZE && 0 < h <= MAX_SIZE ==> grow_fit(
            need_w,
            need_h,
            w,
            h,
        ).0 == grow_fit(need_w, need_h, w, h).1,
    decreases 4 * MAX_SIZE - min_side(w, h),
{
    if (need_w > w || need_h > h) && 0 < w <= MAX_SIZE && 0 < h <= MAX_SIZE {
        let r = grow_round(need_w, need_h, w, h);
        lemma_grow_fit_square(need_w, need_h, r.0, r.1);
    }
}

/// A run of `adjust_size_to_fit` that went through leaves every texture
/// fitting, padding included; an adjusted one is square, and one that was
/// not adjusted keeps its size (when both sides were at least `MIN_SIZE`).
pub proof fn lemma_adjust_fold_fits(ts: Seq<TextureView>, w: int, h: int, padding: int)
    ensures
        adjust_fold(ts, w, h, padding).3 ==> !any_larger(
            ts,
            adjust_fold(ts, w, h, padding).0,
            adjust_fold(ts, w, h, padding).1,
            padding,
        ),
        adjust_fold(ts, w, h, padding).2 && adjust_fold(ts, w, h, padding).3 ==> adjust_fold(
            ts,
            w,
            h,
            padding,
        ).0 == adjust_fold(ts, w, h, padding).1,
        !adjust_fold(ts, w, h, padding).2 && MIN_SIZE <= w && MIN_SIZE <= h ==> adjust_fold(
            ts,
            w,
            h,
            padding,
        ).0 == w && adjust_fold(ts, w, h, padding).1 == h,
    decreases ts.len(),
{
    if ts.len() > 0 {
        let prev = adjust_fold(ts.drop_last(), w, h, padding);
        lemma_adjust_fold_fits(ts.drop_last(), w, h, padding);
        let nw = max_need_w(ts, padding);
        let nh = max_need_h(ts, padding);
        lemma_grow_fit_square(nw, nh, prev.0, prev.1);
        lemma_max_need_bounds(ts, padding);
        let f = adjust_fold(ts, w, h, padding);
        if f.3 {
            assert forall|i: int| 0 <= i < ts.len() implies !(#[trigger] ts[i].width + padding
                > f.0 || ts[i].height + padding > f.1) by {
                assert(ts[i].width + padding <= nw && ts[i].height + padding <= nh);
            }
        }
    }
}

/// A run of `adjust_size_to_fit` that went through without a problem also
/// went through on every first part of the textures.
pub proof fn lemma_adjust_fold_prefix(ts: Seq<TextureView>, w: int, h: int, padding: int, i: int)
    requires
        0 <= i <= ts.len(),
        adjust_fold(ts, w, h, padding).3,
    ensures
        adjust_fold(ts.take(i), w, h, padding).3,
    decreases ts.len(),
{
    if i < ts.len() {
        assert(ts.take(ts.len() as int) =~= ts);
        lemma_adjust_fold_prefix(ts.drop_last(), w, h, padding, i);
        assert(ts.drop_last().take(i) =~= ts.take(i));
    } else {
        assert(ts.take(i) =~= ts);
    }
}

/// When every padded texture already fits, `adjust_size_to_fit` does not
/// make the atlas smaller.
pub proof fn lemma_adjust_fold_grows(ts: Seq<TextureView>, w: int, h: int, padding: int)
    requires
        0 <= w,
        0 <= h,
        !any_larger(ts, w, h, padding),
    ensures
        adjust_fold(ts, w, h, padding).0 >= w,
        adjust_fold(ts, w, h, padding).1 >= h,
    decreases ts.len(),
{
    if ts.len() > 0 {
        assert forall|i: int| 0 <= i < ts.drop_last().len() implies !(#[trigger] ts.drop_last()[i].width
            + padding > w || ts.drop_last()[i].height + padding > h) by {
            assert(ts.drop_last()[i] == ts[i]);
        }
        lemma_adjust_fold_grows(ts.drop_last(), w, h, padding);
        lemma_max_need_fits(ts, padding, w, h);
    }
}

/// A `w` x `h` atlas grown in rounds until it is at least
/// `need_w` x `need_h` (see `grow_fit`).
pub(crate) fn grow_fit_exec(need_w: u64, need_h: u64, w: u32, h: u32) -> (r: (u32, u32))
    ensures
        (r.0 as int, r.1 as int) == grow_fit(need_w as int, need_h as int, w as int, h as int),
{
    let mut cw: u32 = w;
    let mut ch: u32 = h;
    while (need_w > cw as u64 || need_h > ch as u64) && 0 < cw && cw <= MAX_SIZE && 0 < ch
        && ch <= MAX_SIZE
        invariant
            grow_fit(need_w as int, need_h as int, cw as int, ch as int) == grow_fit(
                need_w as int,
                need_h as int,
                w as int,
                h as int,
            ),
        decreases 4 * MAX_SIZE - min_side(cw as int, ch as int),
    {
        if need_w > cw as u64 {
            cw = 2 * cw;
            ch = cw;
        }
        if need_h > ch as u64 {
            ch = 2 * ch;
            cw = ch;
        }
    }
    (cw, ch)
}

impl Packer {
    /// A new packer of the given atlas size.
    ///
    /// # Errors
    ///
    /// `InvalidArg` unless both `width` and `height` are powers of two from 64 to 8192.
    pub fn new(width: u32, height: u32, padding: i32, generate_mipmaps: bool) -> (r: Result<
        Packer,
        PackerError,
    >)
        ensures
            match r {
                Ok(p) => {
                    &&& valid_side(width)
                    &&& valid_side(height)
                    &&& p.state@ == (PackerStateView {
                        width,
                        height,
                        padding,
                        generate_mipmaps,
                        textures: Seq::empty(),
                        points: Seq::empty(),
                        duplicates: Map::empty(),
                    })
                },
                Err(e) => e == PackerError::InvalidArg && !(valid_side(width) && valid_side(height)),
            },
    {
        proof {
            assert(64u32 <= width && width <= 8192u32 ==> ((width & ((width - 1u32) as u32)) == 0u32
                <==> (width == 64u32 || width == 128u32 || width == 256u32 || width == 512u32
                || width == 1024u32 || width == 2048u32 || width == 4096u32 || width == 8192u32)))
                by (bit_vector);
            assert(64u32 <= height && height <= 8192u32 ==> ((height & ((height - 1u32) as u32))
                == 0u32 <==> (height == 64u32 || height == 128u32 || height == 256u32 || height
                == 512u32 || height == 1024u32 || height == 2048u32 || height == 4096u32 || height
                == 8192u32))) by (bit_vector);
        }
        if width >= MIN_SIZE && width <= MAX_SIZE && height >= MIN_SIZE && height <= MAX_SIZE && (
        width & (width - 1)) == 0 && (height & (height - 1)) == 0 {
            Ok(Packer { state: PackerState::new(width, height, padding, generate_mipmaps) })
        } else {
            Err(PackerError::InvalidArg)
        }
    }

    /// This packer, shared.
    pub fn shared(self) -> (r: Arc<Packer>)
        ensures
            *r == self,
    {
        Arc::new(self)
    }

    /// Whether some texture, with the padding added to each side, is wider or
    /// taller than the atlas.
    pub fn exists_larger_texture(&self, textures: &Vec<Texture>) -> (r: bool)
        requires
            self.state.padding >= 0,
            forall|i: int|
                0 <= i < textures@.len() ==> #[trigger] textures@[i].width + self.state.padding
                    <= u32::MAX && textures@[i].height + self.state.padding <= u32::MAX,
        ensures
            r == any_larger(
                views(textures@),
                self.state.width as int,
                self.state.height as int,
                self.state.padding as int,
            ),
    {
        let padding: u32 = self.state.padding as u32;
        let ghost ts = views(textures@);
        let mut i: usize = 0;
        while i < textures.len()
            invariant
                ts == views(textures@),
                padding == self.state.padding,
                i <= textures@.len(),
                forall|j: int|
                    0 <= j < textures@.len() ==> #[trigger] textures@[j].width + padding <= u32::MAX
                        && textures@[j].height + padding <= u32::MAX,
                forall|j: int|
                    0 <= j < i ==> !(#[trigger] ts[j].width + padding > self.state.width
                        || ts[j].height + padding > self.state.height),
            decreases textures.len() - i,
        {
            let texture = &textures[i];
            assert(ts[i as int] == texture@);
            if texture.width + padding > self.state.width || texture.height + padding
                > self.state.height {
                assert(0 <= i < ts.len() && (ts[i as int].width + padding > self.state.width
                    || ts[i as int].height + padding > self.state.height));
                assert(any_larger(ts, self.state.width as int, self.state.height as int, padding as int));
                return true;
            }
            i = i + 1;
        }
        assert(!any_larger(ts, self.state.width as int, self.state.height as int, padding as int)) by {
            assert forall|j: int| 0 <= j < ts.len() implies !(#[trigger] ts[j].width + padding
                > self.state.width || ts[j].height + padding > self.state.height) by {}
        }
        false
    }

    /// Grows the atlas so that the textures fit, padding included, looking
    /// at them in order: while some texture so far does not fit, the width
    /// doubles and the height is set to it when the atlas is too narrow, and
    /// then the height doubles and the width is set to it when it is too
    /// low; after each texture both sides are at least `MIN_SIZE`. Tells
    /// whether anything doubled; an atlas that grew is square.
    pub fn adjust_size_to_fit(&mut self, textures: &Vec<Texture>) -> (adjusted: bool)
        requires
            old(self).state.padding >= 0,
            forall|i: int|
                0 <= i < textures@.len() ==> #[trigger] textures@[i].width + old(
                    self,
                ).state.padding <= u32::MAX && textures@[i].height + old(self).state.padding
                    <= u32::MAX,
            adjust_fold(
                views(textures@),
                old(self).state.width as int,
                old(self).state.height as int,
                old(self).state.padding as int,
            ).3,
        ensures
            ({
                let f = adjust_fold(
                    views(textures@),
                    old(self).state.width as int,
                    old(self).state.height as int,
                    old(self).state.padding as int,
                );
                &&& final(self).state@ == (PackerStateView {
                    width: f.0 as u32,
                    height: f.1 as u32,
                    ..old(self).state@
                })
                &&& textures@.len() > 0 ==> f.0 == final(self).state.width && f.1
                    == final(self).state.height
                &&& adjusted == f.2
            }),
            !any_larger(
                views(textures@),
                final(self).state.width as int,
                final(self).state.height as int,
                old(self).state.padding as int,
            ),
            adjusted ==> final(self).state.width == final(self).state.height,
            !adjusted && MIN_SIZE <= old(self).state.width && MIN_SIZE <= old(self).state.height
                ==> final(self).state.width == old(self).state.width && final(self).state.height
                == old(self).state.height,
    {
        let padding: u32 = self.state.padding as u32;
        let mut mw: u64 = 0;
        let mut mh: u64 = 0;
        let ghost ts = views(textures@);
        let ghost w0 = self.state.width as int;
        let ghost h0 = self.state.height as int;
        let mut adjusted_size = false;
        let mut i: usize = 0;
        while i < textures.len()
            invariant
                ts == views(textures@),
                padding == self.state.padding,
                padding == old(self).state.padding,
                w0 == old(self).state.width,
                h0 == old(self).state.height,
                i <= textures@.len(),
                forall|j: int|
                    0 <= j < textures@.len() ==> #[trigger] textures@[j].width + padding <= u32::MAX
                        && textures@[j].height + padding <= u32::MAX,
                adjust_fold(ts, w0, h0, padding as int).3,
                self.state@ == (PackerStateView {
                    width: self.state.width,
                    height: self.state.height,
                    ..old(self).state@
                }),
                ({
                    let f = adjust_fold(ts.take(i as int), w0, h0, padding as int);
                    &&& f.0 == self.state.width
                    &&& f.1 == self.state.height
                    &&& f.2 == adjusted_size
                }),
                mw == max_need_w(ts.take(i as int), padding as int),
                mh == max_need_h(ts.take(i as int), padding as int),
                mw <= u32::MAX,
                mh <= u32::MAX,
            decreases textures.len() - i,
        {
            let texture = &textures[i];
            proof {
                assert(ts[i as int] == texture@);
                lemma_adjust_fold_prefix(ts, w0, h0, padding as int, i + 1);
                assert(ts.take(i + 1).drop_last() =~= ts.take(i as int));
                assert(ts.take(i + 1).last() == texture@);
            }
            let tw: u64 = texture.width as u64 + padding as u64;
            let th: u64 = texture.height as u64 + padding as u64;
            if tw > mw {
                mw = tw;
            }
            if th > mh {
                mh = th;
            }
            if mw > self.state.width as u64 || mh > self.state.height as u64 {
                adjusted_size = true;
            }
            let grown = grow_fit_exec(mw, mh, self.state.width, self.state.height);
            self.state.width = grown.0;
            self.state.height = grown.1;
            if self.state.width < MIN_SIZE {
                self.state.width = MIN_SIZE;
            }
            if self.state.height < MIN_SIZE {
                self.state.height = MIN_SIZE;
            }
            i = i + 1;
        }
        proof {
            assert(ts.take(textures@.len() as int) =~= ts);
            lemma_adjust_fold_fits(ts, w0, h0, padding as int);
        }
        adjusted_size
    }
}


/// The settings of one run of the packing loop: the `unique` and `rotate`
/// flags, the padding, the heuristic and the size of the bin.
pub struct PackConfig {
    pub unique: bool,
    pub rotate: bool,
    pub padding: i32,
    pub heuristic: RectHeuristic,
    pub bin_width: i32,
    pub bin_height: i32,
}

/// Where the packing loop stands: the textures still to pack (the last one
/// goes next), the textures packed with their points, the point index of each
/// hash placed, the rectangles in the bin, and how far right and down the
/// bin is used.
#[verifier::ext_equal]
pub struct PackRun {
    pub remaining: Seq<TextureView>,
    pub packed: Seq<TextureView>,
    pub points: Seq<Point>,
    pub duplicates: Map<u64, usize>,
    pub rects: Seq<(i32, i32, i32, i32)>,
    pub ww: u32,
    pub hh: u32,
}

/// With `unique` packing, `t` repeats a texture that already has a point.
pub open spec fn repeats(cfg: PackConfig, run: PackRun, t: TextureView) -> bool {
    &&& cfg.unique
    &&& run.duplicates.contains_key(t.hash_value)
    &&& (run.duplicates[t.hash_value] as int) < run.points.len()
}

/// `t` repeats a texture: it is packed with a copy of that texture's point,
/// whose `duplicate_id` names that point.
pub open spec fn repeat_step(run: PackRun, t: TextureView) -> PackRun {
    let v = run.duplicates[t.hash_value];
    PackRun {
        remaining: run.remaining.drop_last(),
        packed: run.packed.push(t),
        points: run.points.push(Point { duplicate_id: v, ..run.points[v as int] }),
        ..run
    }
}

/// `t` was placed in the bin at `r = (x, y, w, h)`: it is packed with a
/// point at `(x, y)`, rotated when turning was allowed and the placed width
/// is not the padded texture width.
pub open spec fn place_step(cfg: PackConfig, run: PackRun, t: TextureView, r: (i32, i32, i32, i32)) -> PackRun {
    PackRun {
        remaining: run.remaining.drop_last(),
        packed: run.packed.push(t),
        points: run.points.push(
            Point {
                x: r.0,
                y: r.1,
                duplicate_id: usize::MAX,
                rotate: cfg.rotate && t.width != r.2 - cfg.padding,
            },
        ),
        duplicates: if cfg.unique {
            run.duplicates.insert(t.hash_value, run.points.len() as usize)
        } else {
            run.duplicates
        },
        rects: run.rects.push(r),
        ww: if r.0 + r.2 > run.ww { (r.0 + r.2) as u32 } else { run.ww },
        hh: if r.1 + r.3 > run.hh { (r.1 + r.3) as u32 } else { run.hh },
    }
}

/// The packing loop: the last remaining texture either repeats a packed one,
/// or is placed in the bin with its padding, or does not fit, which ends the loop.
pub open spec fn pack_loop(cfg: PackConfig, run: PackRun) -> PackRun
    decreases run.remaining.len(),
{
    if run.remaining.len() == 0 {
        run
    } else {
        let t = run.remaining.last();
        if repeats(cfg, run, t) {
            pack_loop(cfg, repeat_step(run, t))
        } else {
            match rect_placement(
                cfg.bin_width,
                cfg.bin_height,
                cfg.rotate,
                run.rects,
                (t.width + cfg.padding) as i32,
                (t.height + cfg.padding) as i32,
                cfg.heuristic,
            ) {
                Some(r) => pack_loop(cfg, place_step(cfg, run, t, r)),
                None => run,
            }
        }
    }
}

/// How many textures, taken from the end of `remaining`, repeat a texture
/// of the given (not growing) hash map while `npoints` points, one more for
/// each, are there.
pub open spec fn leading_repeats(
    unique: bool,
    remaining: Seq<TextureView>,
    duplicates: Map<u64, usize>,
    npoints: int,
) -> nat
    decreases remaining.len(),
{
    if remaining.len() > 0 && unique && duplicates.contains_key(remaining.last().hash_value) && (
    duplicates[remaining.last().hash_value] as int) < npoints {
        1 + leading_repeats(unique, remaining.drop_last(), duplicates, npoints + 1)
    } else {
        0
    }
}

/// Halves `dim` while its half still holds `used`.
pub open spec fn halve_to_fit(dim: u32, used: u32) -> u32
    decreases dim,
{
    if used > 0 && dim / 2 >= used {
        halve_to_fit(dim / 2, used)
    } else {
        dim
    }
}

/// The bin size that `pack` uses: the atlas size, after `adjust_size_to_fit`
/// when `adjust_size` is set.
pub open spec fn bin_size(s: PackerStateView, ts: Seq<TextureView>, adjust_size: bool) -> (int, int) {
    if adjust_size {
        let f = adjust_fold(ts, s.width as int, s.height as int, s.padding as int);
        (f.0, f.1)
    } else {
        (s.width as int, s.height as int)
    }
}

/// The inputs on which `pack` runs through: there is a texture; the padding
/// is not negative; each padded texture side fits an `i32` (and, for
/// `AreaFit`, each padded area and the bin area do; for `ContactPoint`,
/// each padded perimeter does); `adjust_size_to_fit`
/// fits each texture within `MAX_SIZE`; the bin has positive sides that fit an `i32`;
/// and, when the atlas is to be shrunk afterwards, the first texture from
/// the end that does not repeat one already packed exists and has positive
/// padded sides (else nothing would be placed and shrinking would not end).
pub open spec fn pack_admissible(
    s: PackerStateView,
    ts: Seq<TextureView>,
    unique: bool,
    square: bool,
    adjust_size: bool,
    heuristic: RectHeuristic,
) -> bool {
    let pad = s.padding as int;
    let b = bin_size(s, ts, adjust_size);
    &&& ts.len() > 0
    &&& pad >= 0
    &&& forall|i: int|
        0 <= i < ts.len() ==> #[trigger] ts[i].width + pad <= i32::MAX && ts[i].height + pad
            <= i32::MAX
    &&& heuristic == RectHeuristic::AreaFit ==> forall|i: int|
        0 <= i < ts.len() ==> (#[trigger] ts[i].width + pad) * (ts[i].height + pad) <= i32::MAX
    &&& heuristic == RectHeuristic::ContactPoint ==> forall|i: int|
        0 <= i < ts.len() ==> 2 * ((#[trigger] ts[i].width + pad) + (ts[i].height + pad))
            <= i32::MAX
    &&& adjust_size ==> adjust_fold(ts, s.width as int, s.height as int, pad).3
    &&& 0 < b.0 <= i32::MAX
    &&& 0 < b.1 <= i32::MAX
    &&& heuristic == RectHeuristic::AreaFit ==> b.0 * b.1 <= i32::MAX
    &&& !square && !any_larger(ts, s.width as int, s.height as int, pad) ==> {
        let k = leading_repeats(unique, ts, s.duplicates, s.points.len() as int);
        let t = ts[ts.len() - 1 - k];
        &&& k < ts.len()
        &&& 0 < t.width + pad
        &&& 0 < t.height + pad <= i32::MAX
    }
}

/// The views of a vector after `push` and `pop`.
pub proof fn lemma_views_push(ts: Seq<Texture>, t: Texture)
    ensures
        views(ts.push(t)) == views(ts).push(t@),
{
    assert(views(ts.push(t)) =~= views(ts).push(t@));
}

/// The views of all but the last texture.
pub proof fn lemma_views_drop_last(ts: Seq<Texture>)
    requires
        ts.len() > 0,
    ensures
        views(ts.subrange(0, ts.len() - 1)) == views(ts).drop_last(),
{
    assert(views(ts.subrange(0, ts.len() - 1)) =~= views(ts).drop_last());
}

impl PackerStateView {
    /// Nothing has been packed yet.
    pub open spec fn is_empty(self) -> bool {
        &&& self.textures.len() == 0
        &&& self.points.len() == 0
        &&& self.duplicates.dom() == Set::<u64>::empty()
    }
}

/// The area a packed texture covers, padding included, as `(x, y, w, h)`:
/// turned when its point says so.
pub open spec fn footprint(p: Point, t: TextureView, padding: int) -> (i32, i32, i32, i32) {
    if p.rotate {
        (p.x, p.y, (t.height + padding) as i32, (t.width + padding) as i32)
    } else {
        (p.x, p.y, (t.width + padding) as i32, (t.height + padding) as i32)
    }
}

/// A point that was placed itself, not copied from a repeated texture.
pub open spec fn is_placed(p: Point) -> bool {
    p.duplicate_id == usize::MAX
}

/// The textures and points of a packer make a sound atlas of `width` x
/// `height`: each placed texture (with its padding) lies inside, no two
/// placed textures overlap, and each repeated texture carries the position
/// and turn of an earlier placed texture with the same hash, whose index is
/// its `duplicate_id`.
pub open spec fn layout_sound(
    points: Seq<Point>,
    textures: Seq<TextureView>,
    padding: int,
    width: int,
    height: int,
) -> bool {
    &&& placement_sound(points, textures, padding, width, height)
    &&& copies_sound(points, textures)
}

/// Each texture has a point, and the placed textures (with their padding)
/// lie inside a `width` x `height` atlas without overlapping.
pub open spec fn placement_sound(
    points: Seq<Point>,
    textures: Seq<TextureView>,
    padding: int,
    width: int,
    height: int,
) -> bool {
    &&& points.len() == textures.len()
    &&& forall|i: int|
        0 <= i < points.len() && is_placed(#[trigger] points[i]) ==> rect_inside(
            footprint(points[i], textures[i], padding),
            width,
            height,
        )
    &&& forall|i: int, j: int|
        0 <= i < j < points.len() && is_placed(#[trigger] points[i]) && is_placed(
            #[trigger] points[j],
        ) ==> rects_disjoint(
            footprint(points[i], textures[i], padding),
            footprint(points[j], textures[j], padding),
        )
}

/// Each repeated texture carries the position and turn of an earlier
/// placed texture with the same hash, whose index is its `duplicate_id`.
pub open spec fn copies_sound(points: Seq<Point>, textures: Seq<TextureView>) -> bool {
    forall|i: int|
        0 <= i < points.len() && !is_placed(#[trigger] points[i]) ==> {
            let d = points[i].duplicate_id as int;
            &&& 0 <= d < i
            &&& is_placed(points[d])
            &&& points[i] == (Point { duplicate_id: points[i].duplicate_id, ..points[d] })
            &&& textures[i].hash_value == textures[d].hash_value
        }
}

/// A point is turned only when turning was allowed.
pub open spec fn turned_only_if(points: Seq<Point>, rotate: bool) -> bool {
    forall|i: int| 0 <= i < points.len() && (#[trigger] points[i]).rotate ==> rotate
}

/// A sound atlas stays sound when it grows.
pub proof fn lemma_layout_sound_grow(
    points: Seq<Point>,
    textures: Seq<TextureView>,
    padding: int,
    width: int,
    height: int,
    width2: int,
    height2: int,
)
    requires
        width <= width2,
        height <= height2,
    ensures
        layout_sound(points, textures, padding, width, height) ==> layout_sound(
            points,
            textures,
            padding,
            width2,
            height2,
        ),
        placement_sound(points, textures, padding, width, height) ==> placement_sound(
            points,
            textures,
            padding,
            width2,
            height2,
        ),
{
}

/// Halving to fit never goes below what has to fit.
pub proof fn lemma_halve_to_fit(dim: u32, used: u32)
    requires
        used <= dim,
    ensures
        used <= halve_to_fit(dim, used) <= dim,
        used > 0 ==> halve_to_fit(dim, used) / 2 < used,
    decreases dim,
{
    if used > 0 && dim / 2 >= used {
        lemma_halve_to_fit(dim / 2, used);
    }
}

/// Every placed texture of `points` has its footprint among the rectangles `rs`.
pub open spec fn footprints_in(
    points: Seq<Point>,
    textures: Seq<TextureView>,
    padding: int,
    rs: Seq<(i32, i32, i32, i32)>,
) -> bool {
    forall|i: int|
        0 <= i < points.len() && is_placed(#[trigger] points[i]) ==> exists|j: int|
            0 <= j < rs.len() && #[trigger] rs[j] == footprint(points[i], textures[i], padding)
}

/// A repeated texture keeps the atlas sound.
pub proof fn lemma_layout_repeat(
    points: Seq<Point>,
    textures: Seq<TextureView>,
    padding: int,
    width: int,
    height: int,
    v: int,
    t: TextureView,
    rs: Seq<(i32, i32, i32, i32)>,
)
    requires
        layout_sound(points, textures, padding, width, height),
        footprints_in(points, textures, padding, rs),
        0 <= v < points.len(),
        points.len() <= usize::MAX,
        is_placed(points[v]),
        textures[v].hash_value == t.hash_value,
    ensures
        layout_sound(
            points.push(Point { duplicate_id: v as usize, ..points[v] }),
            textures.push(t),
            padding,
            width,
            height,
        ),
        footprints_in(
            points.push(Point { duplicate_id: v as usize, ..points[v] }),
            textures.push(t),
            padding,
            rs,
        ),
{
    let q = Point { duplicate_id: v as usize, ..points[v] };
    lemma_placement_repeat(points, textures, padding, width, height, q, t, rs);
    let p2 = points.push(q);
    let t2 = textures.push(t);
    assert forall|i: int| 0 <= i < p2.len() && !is_placed(#[trigger] p2[i]) implies {
        let d = p2[i].duplicate_id as int;
        &&& 0 <= d < i
        &&& is_placed(p2[d])
        &&& p2[i] == (Point { duplicate_id: p2[i].duplicate_id, ..p2[d] })
        &&& t2[i].hash_value == t2[d].hash_value
    } by {
        if i < points.len() {
            assert(p2[i] == points[i] && t2[i] == textures[i]);
            let d = points[i].duplicate_id as int;
            assert(p2[d] == points[d] && t2[d] == textures[d]);
        } else {
            assert(p2[v] == points[v] && t2[v] == textures[v]);
        }
    }
}

/// A repeated texture, whose point is not placed, keeps the placed
/// textures inside and apart.
pub proof fn lemma_placement_repeat(
    points: Seq<Point>,
    textures: Seq<TextureView>,
    padding: int,
    width: int,
    height: int,
    q: Point,
    t: TextureView,
    rs: Seq<(i32, i32, i32, i32)>,
)
    requires
        placement_sound(points, textures, padding, width, height),
        footprints_in(points, textures, padding, rs),
        !is_placed(q),
    ensures
        placement_sound(points.push(q), textures.push(t), padding, width, height),
        footprints_in(points.push(q), textures.push(t), padding, rs),
{
    let p2 = points.push(q);
    let t2 = textures.push(t);
    assert forall|i: int|
        0 <= i < p2.len() && is_placed(#[trigger] p2[i]) implies exists|j: int|
            0 <= j < rs.len() && #[trigger] rs[j] == footprint(p2[i], t2[i], padding) by {
        assert(p2[i] == points[i] && t2[i] == textures[i]);
    }
    assert forall|i: int, j: int|
        0 <= i < j < p2.len() && is_placed(#[trigger] p2[i]) && is_placed(#[trigger] p2[j])
        implies rects_disjoint(footprint(p2[i], t2[i], padding), footprint(p2[j], t2[j], padding)) by {
        assert(p2[i] == points[i] && t2[i] == textures[i]);
        assert(p2[j] == points[j] && t2[j] == textures[j]);
    }
    assert forall|i: int| 0 <= i < p2.len() && is_placed(#[trigger] p2[i]) implies rect_inside(
        footprint(p2[i], t2[i], padding),
        width,
        height,
    ) by {
        assert(p2[i] == points[i] && t2[i] == textures[i]);
    }
}

/// A newly placed texture whose footprint is a rectangle that lies inside
/// and shares no area with the rectangles placed before keeps the atlas sound.
pub proof fn lemma_layout_place(
    points: Seq<Point>,
    textures: Seq<TextureView>,
    padding: int,
    width: int,
    height: int,
    width2: int,
    height2: int,
    p: Point,
    t: TextureView,
    rs: Seq<(i32, i32, i32, i32)>,
    r: (i32, i32, i32, i32),
)
    requires
        layout_sound(points, textures, padding, width, height),
        footprints_in(points, textures, padding, rs),
        forall|j: int| 0 <= j < rs.len() ==> rects_disjoint(#[trigger] rs[j], r),
        is_placed(p),
        footprint(p, t, padding) == r,
        rect_inside(r, width2, height2),
        width <= width2,
        height <= height2,
    ensures
        layout_sound(points.push(p), textures.push(t), padding, width2, height2),
        footprints_in(points.push(p), textures.push(t), padding, rs.push(r)),
{
    lemma_placement_place(points, textures, padding, width, height, width2, height2, p, t, rs, r);
    let p2 = points.push(p);
    let t2 = textures.push(t);
    assert forall|i: int| 0 <= i < p2.len() && !is_placed(#[trigger] p2[i]) implies {
        let d = p2[i].duplicate_id as int;
        &&& 0 <= d < i
        &&& is_placed(p2[d])
        &&& p2[i] == (Point { duplicate_id: p2[i].duplicate_id, ..p2[d] })
        &&& t2[i].hash_value == t2[d].hash_value
    } by {
        assert(i < points.len());
        assert(p2[i] == points[i] && t2[i] == textures[i]);
        let d = points[i].duplicate_id as int;
        assert(p2[d] == points[d] && t2[d] == textures[d]);
    }
}

/// A newly placed texture whose footprint lies inside and apart from the
/// rectangles placed before keeps the placed textures inside and apart.
pub proof fn lemma_placement_place(
    points: Seq<Point>,
    textures: Seq<TextureView>,
    padding: int,
    width: int,
    height: int,
    width2: int,
    height2: int,
    p: Point,
    t: TextureView,
    rs: Seq<(i32, i32, i32, i32)>,
    r: (i32, i32, i32, i32),
)
    requires
        placement_sound(points, textures, padding, width, height),
        footprints_in(points, textures, padding, rs),
        forall|j: int| 0 <= j < rs.len() ==> rects_disjoint(#[trigger] rs[j], r),
        is_placed(p),
        footprint(p, t, padding) == r,
        rect_inside(r, width2, height2),
        width <= width2,
        height <= height2,
    ensures
        placement_sound(points.push(p), textures.push(t), padding, width2, height2),
        footprints_in(points.push(p), textures.push(t), padding, rs.push(r)),
{
    let p2 = points.push(p);
    let t2 = textures.push(t);
    let rs2 = rs.push(r);
    assert forall|i: int|
        0 <= i < p2.len() && is_placed(#[trigger] p2[i]) implies exists|j: int|
            0 <= j < rs2.len() && #[trigger] rs2[j] == footprint(p2[i], t2[i], padding) by {
        if i < points.len() {
            assert(p2[i] == points[i] && t2[i] == textures[i]);
            let j = choose|j: int|
                0 <= j < rs.len() && #[trigger] rs[j] == footprint(points[i], textures[i], padding);
            assert(rs2[j] == rs[j]);
        } else {
            assert(rs2[rs.len() as int] == r);
        }
    }
    assert forall|i: int, j: int|
        0 <= i < j < p2.len() && is_placed(#[trigger] p2[i]) && is_placed(#[trigger] p2[j])
        implies rects_disjoint(footprint(p2[i], t2[i], padding), footprint(p2[j], t2[j], padding)) by {
        assert(p2[i] == points[i] && t2[i] == textures[i]);
        if j < points.len() {
            assert(p2[j] == points[j] && t2[j] == textures[j]);
        } else {
            let k = choose|k: int|
                0 <= k < rs.len() && #[trigger] rs[k] == footprint(points[i], textures[i], padding);
            assert(rects_disjoint(rs[k], r));
        }
    }
    assert forall|i: int| 0 <= i < p2.len() && is_placed(#[trigger] p2[i]) implies rect_inside(
        footprint(p2[i], t2[i], padding),
        width2,
        height2,
    ) by {
        if i < points.len() {
            assert(p2[i] == points[i] && t2[i] == textures[i]);
        }
    }
}

/// What `pack` leaves: the packer state and the textures still to pack.
/// The packing loop runs in a bin of `bin_size`, from the end of `ts`; the
/// packed textures, their points and the hash map are those of the loop;
/// without `square`, and when no padded texture was larger than the atlas,
/// each side is then halved while its half still holds what was placed.
pub open spec fn pack_outcome(
    s0: PackerStateView,
    ts: Seq<TextureView>,
    unique: bool,
    rotate: bool,
    square: bool,
    adjust_size: bool,
    heuristic: RectHeuristic,
) -> (PackerStateView, Seq<TextureView>) {
    let b = bin_size(s0, ts, adjust_size);
    let cfg = PackConfig {
        unique,
        rotate,
        padding: s0.padding,
        heuristic,
        bin_width: b.0 as i32,
        bin_height: b.1 as i32,
    };
    let run = pack_loop(
        cfg,
        PackRun {
            remaining: ts,
            packed: s0.textures,
            points: s0.points,
            duplicates: s0.duplicates,
            rects: Seq::empty(),
            ww: 0,
            hh: 0,
        },
    );
    let shrink = !square && !any_larger(ts, s0.width as int, s0.height as int, s0.padding as int);
    (
        PackerStateView {
            width: if shrink { halve_to_fit(b.0 as u32, run.ww) } else { b.0 as u32 },
            height: if shrink { halve_to_fit(b.1 as u32, run.hh) } else { b.1 as u32 },
            textures: run.packed,
            points: run.points,
            duplicates: run.duplicates,
            ..s0
        },
        run.remaining,
    )
}

/// The elements of `s` in the order they come off its end.
pub open spec fn popped_order<A>(s: Seq<A>) -> Seq<A> {
    Seq::new(s.len(), |i: int| s[s.len() - 1 - i])
}

/// Law: the packing loop only moves textures, from the end of the remaining
/// ones to the end of the packed ones: what remains is a first part of what
/// remained, the packed textures gain exactly the rest in the order they
/// came off, and each one gets exactly one point.
pub proof fn lemma_pack_loop_moves(cfg: PackConfig, run: PackRun)
    ensures
        ({
            let r = pack_loop(cfg, run);
            let k = r.remaining.len() as int;
            &&& k <= run.remaining.len()
            &&& r.remaining == run.remaining.take(k)
            &&& r.packed == run.packed + popped_order(run.remaining.skip(k))
            &&& r.points.len() - r.packed.len() == run.points.len() - run.packed.len()
        }),
    decreases run.remaining.len(),
{
    if run.remaining.len() > 0 {
        let t = run.remaining.last();
        let next = if repeats(cfg, run, t) {
            Some(repeat_step(run, t))
        } else {
            match rect_placement(
                cfg.bin_width,
                cfg.bin_height,
                cfg.rotate,
                run.rects,
                (t.width + cfg.padding) as i32,
                (t.height + cfg.padding) as i32,
                cfg.heuristic,
            ) {
                Some(r) => Some(place_step(cfg, run, t, r)),
                None => None,
            }
        };
        match next {
            Some(nx) => {
                assert(pack_loop(cfg, run) == pack_loop(cfg, nx));
                lemma_pack_loop_moves(cfg, nx);
                let r = pack_loop(cfg, run);
                let k = r.remaining.len() as int;
                assert(nx.remaining == run.remaining.drop_last());
                assert(nx.packed == run.packed.push(t));
                assert(run.remaining.drop_last().take(k) =~= run.remaining.take(k));
                assert(r.packed =~= run.packed + popped_order(run.remaining.skip(k)));
            },
            None => {
                assert(run.remaining.take(run.remaining.len() as int) =~= run.remaining);
                assert(popped_order(run.remaining.skip(run.remaining.len() as int)) =~= Seq::<TextureView>::empty());
                assert(run.packed + Seq::<TextureView>::empty() =~= run.packed);
            },
        }
    } else {
        assert(run.remaining.take(0) =~= run.remaining);
        assert(run.packed + popped_order(run.remaining.skip(0)) =~= run.packed);
    }
}

/// A run of `adjust_size_to_fit` over at least one texture that went
/// through leaves each side between `MIN_SIZE` and `MAX_SIZE`.
pub proof fn lemma_adjust_fold_bounds(ts: Seq<TextureView>, w: int, h: int, padding: int)
    requires
        ts.len() > 0,
        adjust_fold(ts, w, h, padding).3,
    ensures
        MIN_SIZE <= adjust_fold(ts, w, h, padding).0 <= MAX_SIZE,
        MIN_SIZE <= adjust_fold(ts, w, h, padding).1 <= MAX_SIZE,
{
}

/// When every padded texture already fits an atlas whose sides are at least
/// `MIN_SIZE`, `adjust_size_to_fit` leaves its size as it is.
proof fn lemma_adjust_fold_keeps(ts: Seq<TextureView>, w: int, h: int, padding: int)
    requires
        MIN_SIZE <= w,
        MIN_SIZE <= h,
        !any_larger(ts, w, h, padding),
    ensures
        adjust_fold(ts, w, h, padding).0 == w,
        adjust_fold(ts, w, h, padding).1 == h,
    decreases ts.len(),
{
    if ts.len() > 0 {
        assert forall|i: int| 0 <= i < ts.drop_last().len() implies !(#[trigger] ts.drop_last()[i].width
            + padding > w || ts.drop_last()[i].height + padding > h) by {
            assert(ts.drop_last()[i] == ts[i]);
        }
        lemma_adjust_fold_keeps(ts.drop_last(), w, h, padding);
        lemma_max_need_fits(ts, padding, w, h);
        assert(grow_fit(max_need_w(ts, padding), max_need_h(ts, padding), w, h) == (w, h));
    }
}

/// Law: with `square`, or when some padded texture is larger than the atlas,
/// `pack` does not shrink: the atlas keeps the size of the bin it packed in
/// (the starting size, or the adjusted one with `adjust_size`).
pub proof fn lemma_pack_keeps_bin_size(
    s0: PackerStateView,
    ts: Seq<TextureView>,
    unique: bool,
    rotate: bool,
    square: bool,
    adjust_size: bool,
    heuristic: RectHeuristic,
)
    requires
        square || any_larger(ts, s0.width as int, s0.height as int, s0.padding as int),
        0 <= bin_size(s0, ts, adjust_size).0 <= u32::MAX,
        0 <= bin_size(s0, ts, adjust_size).1 <= u32::MAX,
    ensures
        pack_outcome(s0, ts, unique, rotate, square, adjust_size, heuristic).0.width == bin_size(
            s0,
            ts,
            adjust_size,
        ).0,
        pack_outcome(s0, ts, unique, rotate, square, adjust_size, heuristic).0.height == bin_size(
            s0,
            ts,
            adjust_size,
        ).1,
{
}

/// Law: when no padded texture is larger than the atlas (whose sides are at
/// least `MIN_SIZE`), asking `pack` to adjust the size first changes nothing:
/// the same textures are placed at the same points, and the atlas is shrunk
/// afterwards (unless `square`) exactly as without the adjustment.
pub proof fn lemma_pack_adjust_size_when_fitting(
    s0: PackerStateView,
    ts: Seq<TextureView>,
    unique: bool,
    rotate: bool,
    square: bool,
    heuristic: RectHeuristic,
)
    requires
        MIN_SIZE <= s0.width,
        MIN_SIZE <= s0.height,
        !any_larger(ts, s0.width as int, s0.height as int, s0.padding as int),
    ensures
        pack_outcome(s0, ts, unique, rotate, square, true, heuristic) == pack_outcome(
            s0,
            ts,
            unique,
            rotate,
            square,
            false,
            heuristic,
        ),
{
    lemma_adjust_fold_keeps(ts, s0.width as int, s0.height as int, s0.padding as int);
    assert(bin_size(s0, ts, true) == bin_size(s0, ts, false));
}

impl Packer {
    /// Packs all textures that fit from the end of `textures` and pops each
    /// packed one: with `unique`, a texture whose hash was placed before gets
    /// a copy of that point (and is not placed again); `rotate` lets the
    /// packer turn textures 90 degrees clockwise; without `square` (and when
    /// no padded texture was larger than the atlas) the atlas is shrunk
    /// afterwards to the smallest halving that holds what was placed;
    /// `adjust_size` first grows the atlas as `adjust_size_to_fit` does; the
    /// heuristic decides where each texture goes.
    pub fn pack(
        &mut self,
        textures: &mut Vec<Texture>,
        unique: bool,
        rotate: bool,
        square: bool,
        adjust_size: bool,
        heuristic: RectHeuristic,
    )
        requires
            pack_admissible(old(self).state@, views(old(textures)@), unique, square, adjust_size, heuristic),
        ensures
            (final(self).state@, views(final(textures)@)) == pack_outcome(
                old(self).state@,
                views(old(textures)@),
                unique,
                rotate,
                square,
                adjust_size,
                heuristic,
            ),
            old(self).state@.is_empty() ==> layout_sound(
                final(self).state@.points,
                final(self).state@.textures,
                final(self).state.padding as int,
                final(self).state.width as int,
                final(self).state.height as int,
            ),
            old(self).state@.textures.len() == 0 && old(self).state@.points.len() == 0 ==> {
                &&& placement_sound(
                    final(self).state@.points,
                    final(self).state@.textures,
                    final(self).state.padding as int,
                    final(self).state.width as int,
                    final(self).state.height as int,
                )
                &&& turned_only_if(final(self).state@.points, rotate)
            },
    {
        let ghost s0 = self.state@;
        let ghost ts = views(textures@);
        let mut exists_larger = false;
        proof {
            assert forall|i: int| 0 <= i < textures@.len() implies #[trigger] textures@[i].width
                + self.state.padding <= u32::MAX && textures@[i].height + self.state.padding
                <= u32::MAX by {
                assert(ts[i] == textures@[i]@);
                assert(ts[i].width + s0.padding <= i32::MAX && ts[i].height + s0.padding <= i32::MAX);
            }
        }
        if !square {
            exists_larger = self.exists_larger_texture(textures);
        }
        if adjust_size {
            self.adjust_size_to_fit(textures);
        }
        proof {
            if !square && !exists_larger && adjust_size {
                lemma_adjust_fold_grows(ts, s0.width as int, s0.height as int, s0.padding as int);
            }
        }
        let bw: i32 = self.state.width as i32;
        let bh: i32 = self.state.height as i32;
        match new_bin(bw, bh, rotate) {
            Ok(bin) => {
                let ghost must_place = !square && !exists_larger;
                let used = self.pack_into_bin(
                    textures,
                    bin,
                    unique,
                    rotate,
                    heuristic,
                    Ghost(must_place),
                );
                let ww = used.0;
                let hh = used.1;
                proof {
                    if s0.textures.len() == 0 && s0.points.len() == 0 {
                        if !square && !exists_larger {
                            lemma_halve_to_fit(bw as u32, ww);
                            lemma_halve_to_fit(bh as u32, hh);
                        }
                        lemma_layout_sound_grow(
                            self.state@.points,
                            self.state@.textures,
                            s0.padding as int,
                            ww as int,
                            hh as int,
                            (if !square && !exists_larger { halve_to_fit(bw as u32, ww) } else { bw as u32 }) as int,
                            (if !square && !exists_larger { halve_to_fit(bh as u32, hh) } else { bh as u32 }) as int,
                        );
                    }
                }
                if !square && !exists_larger {
                    let ghost mid = self.state@;
                    while self.state.width / 2 >= ww
                        invariant
                            ww > 0,
                            self.state@ == (PackerStateView { width: self.state.width, ..mid }),
                            halve_to_fit(self.state.width, ww) == halve_to_fit(bw as u32, ww),
                        decreases self.state.width,
                    {
                        self.state.width = self.state.width / 2;
                    }
                    let ghost mid2 = self.state@;
                    while self.state.height / 2 >= hh
                        invariant
                            hh > 0,
                            self.state@ == (PackerStateView { height: self.state.height, ..mid2 }),
                            halve_to_fit(self.state.height, hh) == halve_to_fit(bh as u32, hh),
                        decreases self.state.height,
                    {
                        self.state.height = self.state.height / 2;
                    }
                }
            },
            Err(_) => {},
        }
    }

    /// The packing loop of `pack`, in the given empty bin; returns how far
    /// right and down the bin is used.
    fn pack_into_bin(
        &mut self,
        textures: &mut Vec<Texture>,
        bin: flow_rectpack::RectsBinPack,
        unique: bool,
        rotate: bool,
        heuristic: RectHeuristic,
        Ghost(must_place): Ghost<bool>,
    ) -> (used: (u32, u32))
        requires
            ({
                let s = old(self).state@;
                let ts = views(old(textures)@);
                let pad = s.padding as int;
                &&& ts.len() > 0
                &&& pad >= 0
                &&& forall|i: int|
                    0 <= i < ts.len() ==> #[trigger] ts[i].width + pad <= i32::MAX && ts[i].height
                        + pad <= i32::MAX
                &&& heuristic == RectHeuristic::AreaFit ==> forall|i: int|
                    0 <= i < ts.len() ==> (#[trigger] ts[i].width + pad) * (ts[i].height + pad)
                        <= i32::MAX
                &&& heuristic == RectHeuristic::ContactPoint ==> forall|i: int|
                    0 <= i < ts.len() ==> 2 * ((#[trigger] ts[i].width + pad) + (ts[i].height
                        + pad)) <= i32::MAX
                &&& bin_frame(bin) == (s.width as i32, s.height as i32, rotate)
                &&& bin_rects(bin) == Seq::<(i32, i32, i32, i32)>::empty()
                &&& 0 < s.width <= i32::MAX
                &&& 0 < s.height <= i32::MAX
                &&& heuristic == RectHeuristic::AreaFit ==> s.width * s.height <= i32::MAX
                &&& must_place ==> {
                    let k = leading_repeats(unique, ts, s.duplicates, s.points.len() as int);
                    let t = ts[ts.len() - 1 - k];
                    &&& k < ts.len()
                    &&& 0 < t.width + pad <= s.width
                    &&& 0 < t.height + pad <= s.height
                }
            }),
        ensures
            ({
                let s0 = old(self).state@;
                let cfg = PackConfig {
                    unique,
                    rotate,
                    padding: s0.padding,
                    heuristic,
                    bin_width: s0.width as i32,
                    bin_height: s0.height as i32,
                };
                let run = pack_loop(
                    cfg,
                    PackRun {
                        remaining: views(old(textures)@),
                        packed: s0.textures,
                        points: s0.points,
                        duplicates: s0.duplicates,
                        rects: Seq::empty(),
                        ww: 0,
                        hh: 0,
                    },
                );
                &&& views(final(textures)@) == run.remaining
                &&& final(self).state@ == (PackerStateView {
                    textures: run.packed,
                    points: run.points,
                    duplicates: run.duplicates,
                    ..s0
                })
                &&& used == (run.ww, run.hh)
                &&& must_place ==> used.0 > 0 && used.1 > 0
                &&& used.0 <= s0.width && used.1 <= s0.height
                &&& s0.is_empty() ==> layout_sound(
                    final(self).state@.points,
                    final(self).state@.textures,
                    s0.padding as int,
                    used.0 as int,
                    used.1 as int,
                )
                &&& s0.textures.len() == 0 && s0.points.len() == 0 ==> {
                    &&& placement_sound(
                        final(self).state@.points,
                        final(self).state@.textures,
                        s0.padding as int,
                        used.0 as int,
                        used.1 as int,
                    )
                    &&& turned_only_if(final(self).state@.points, rotate)
                }
            }),
    {
        let mut rbp = bin;
        let ghost s0 = self.state@;
        let ghost ts = views(textures@);
        let ghost n0 = ts.len();
        let ghost cfg = PackConfig {
            unique,
            rotate,
            padding: s0.padding,
            heuristic,
            bin_width: s0.width as i32,
            bin_height: s0.height as i32,
        };
        let ghost run0 = PackRun {
            remaining: ts,
            packed: s0.textures,
            points: s0.points,
            duplicates: s0.duplicates,
            rects: Seq::empty(),
            ww: 0,
            hh: 0,
        };
        let ghost target = pack_loop(cfg, run0);
        let mut ww: u32 = 0;
        let mut hh: u32 = 0;
        let mut done = false;
        assert(ts.take(n0 as int) =~= ts);
        while !done && textures.len() > 0
            invariant
                self.state@ == (PackerStateView {
                    textures: self.state@.textures,
                    points: self.state@.points,
                    duplicates: self.state@.duplicates,
                    ..s0
                }),
                bin_frame(rbp) == (s0.width as i32, s0.height as i32, rotate),
                cfg == (PackConfig {
                    unique,
                    rotate,
                    padding: s0.padding,
                    heuristic,
                    bin_width: s0.width as i32,
                    bin_height: s0.height as i32,
                }),
                views(textures@) == ts.take(textures@.len() as int),
                textures@.len() <= n0,
                n0 == ts.len(),
                n0 > 0,
                s0.padding >= 0,
                0 < s0.width <= i32::MAX,
                0 < s0.height <= i32::MAX,
                heuristic == RectHeuristic::AreaFit ==> s0.width * s0.height <= i32::MAX,
                forall|i: int|
                    0 <= i < ts.len() ==> #[trigger] ts[i].width + s0.padding <= i32::MAX
                        && ts[i].height + s0.padding <= i32::MAX,
                heuristic == RectHeuristic::AreaFit ==> forall|i: int|
                    0 <= i < ts.len() ==> (#[trigger] ts[i].width + s0.padding) * (ts[i].height
                        + s0.padding) <= i32::MAX,
                heuristic == RectHeuristic::ContactPoint ==> forall|i: int|
                    0 <= i < ts.len() ==> 2 * ((#[trigger] ts[i].width + s0.padding) + (
                    ts[i].height + s0.padding)) <= i32::MAX,
                ({
                    let cur = PackRun {
                        remaining: views(textures@),
                        packed: views(self.state.textures@),
                        points: self.state.points@,
                        duplicates: self.state.duplicates@,
                        rects: bin_rects(rbp),
                        ww,
                        hh,
                    };
                    &&& pack_loop(cfg, cur) == target
                    &&& done ==> pack_loop(cfg, cur) == cur
                }),
                bin_rects(rbp).len() == 0 ==> {
                    let processed = n0 - textures@.len();
                    &&& self.state.duplicates@ == s0.duplicates
                    &&& self.state.points@.len() == s0.points.len() + processed
                    &&& leading_repeats(unique, ts, s0.duplicates, s0.points.len() as int)
                        == processed + leading_repeats(
                        unique,
                        views(textures@),
                        s0.duplicates,
                        s0.points.len() + processed,
                    )
                },
                bin_rects(rbp).len() == 0 && must_place ==> !done,
                bin_rects(rbp).len() > 0 ==> ww > 0 && hh > 0,
                ww <= s0.width,
                hh <= s0.height,
                s0.is_empty() ==> {
                    let pts = self.state.points@;
                    let txs = views(self.state.textures@);
                    let rs = bin_rects(rbp);
                    &&& layout_sound(pts, txs, s0.padding as int, ww as int, hh as int)
                    &&& footprints_in(pts, txs, s0.padding as int, rs)
                    &&& forall|h: u64|
                        #[trigger] self.state.duplicates@.contains_key(h) ==> {
                            let v = self.state.duplicates@[h] as int;
                            &&& 0 <= v < pts.len()
                            &&& is_placed(pts[v])
                            &&& txs[v].hash_value == h
                        }
                },
                must_place ==> {
                    let k = leading_repeats(unique, ts, s0.duplicates, s0.points.len() as int);
                    let t = ts[ts.len() - 1 - k];
                    &&& k < ts.len()
                    &&& 0 < t.width + s0.padding <= s0.width
                    &&& 0 < t.height + s0.padding <= s0.height
                },
                s0.textures.len() == 0 && s0.points.len() == 0 ==> {
                    let pts = self.state.points@;
                    let txs = views(self.state.textures@);
                    &&& placement_sound(pts, txs, s0.padding as int, ww as int, hh as int)
                    &&& footprints_in(pts, txs, s0.padding as int, bin_rects(rbp))
                    &&& turned_only_if(pts, rotate)
                },
            decreases textures@.len() + if done { 0int } else { 1int },
        {
            let ghost cur = PackRun {
                remaining: views(textures@),
                packed: views(self.state.textures@),
                points: self.state.points@,
                duplicates: self.state.duplicates@,
                rects: bin_rects(rbp),
                ww,
                hh,
            };
            let n = textures.len();
            let ghost t = textures@[n - 1]@;
            proof {
                assert(cur.remaining.last() == t);
                assert(ts[n - 1] == t);
            }
            let hash = textures[n - 1].hash_value;
            let mut is_repeat = false;
            let mut dup_index: usize = 0;
            if unique {
                match self.state.duplicates.get(&hash) {
                    Some(v) => {
                        let v: usize = *v;
                        if v < self.state.points.len() {
                            is_repeat = true;
                            dup_index = v;
                        }
                    },
                    None => {},
                }
            }
            assert(is_repeat == repeats(cfg, cur, t));
            if is_repeat {
                let mut p = self.state.points[dup_index];
                p.duplicate_id = dup_index;
                self.state.points.push(p);
                let tex = textures.pop().unwrap();
                proof {
                    lemma_views_push(self.state.textures@, tex);
                }
                self.state.textures.push(tex);
                proof {
                    lemma_views_drop_last(textures@.push(tex));
                    assert(textures@.push(tex).subrange(0, n - 1) =~= textures@);
                    let next = PackRun {
                        remaining: views(textures@),
                        packed: views(self.state.textures@),
                        points: self.state.points@,
                        duplicates: self.state.duplicates@,
                        rects: bin_rects(rbp),
                        ww,
                        hh,
                    };
                    assert(next =~= repeat_step(cur, t));
                    assert(views(textures@) =~= ts.take(textures@.len() as int));
                    if s0.is_empty() {
                        lemma_layout_repeat(
                            cur.points,
                            cur.packed,
                            s0.padding as int,
                            ww as int,
                            hh as int,
                            dup_index as int,
                            t,
                            bin_rects(rbp),
                        );
                        assert(self.state.points@ =~= cur.points.push(Point { duplicate_id: dup_index, ..cur.points[dup_index as int] }));
                    }
                    if s0.textures.len() == 0 && s0.points.len() == 0 {
                        let q = Point { duplicate_id: dup_index, ..cur.points[dup_index as int] };
                        assert(self.state.points@ =~= cur.points.push(q));
                        lemma_placement_repeat(
                            cur.points,
                            cur.packed,
                            s0.padding as int,
                            ww as int,
                            hh as int,
                            q,
                            t,
                            bin_rects(rbp),
                        );
                        assert(cur.points[dup_index as int].rotate ==> rotate);
                        assert(turned_only_if(self.state.points@, rotate)) by {
                            assert forall|i: int| 0 <= i < self.state.points@.len() && (
                            #[trigger] self.state.points@[i]).rotate implies rotate by {
                                if i < cur.points.len() {
                                    assert(self.state.points@[i] == cur.points[i]);
                                }
                            }
                        }
                    }
                }
            } else {
                let tw: i32 = textures[n - 1].width as i32;
                let th: i32 = textures[n - 1].height as i32;
                let width: i32 = tw + self.state.padding;
                let height: i32 = th + self.state.padding;
                proof {
                    if heuristic == RectHeuristic::AreaFit {
                        assert((ts[n - 1].width + s0.padding) * (ts[n - 1].height + s0.padding) <= i32::MAX);
                    }
                    if heuristic == RectHeuristic::ContactPoint {
                        assert(2 * ((ts[n - 1].width + s0.padding) + (ts[n - 1].height + s0.padding)) <= i32::MAX);
                    }
                    if bin_rects(rbp).len() == 0 && must_place {
                        let processed = n0 - n;
                        assert(leading_repeats(unique, views(textures@), s0.duplicates, s0.points.len() + processed) == 0);
                        assert(ts.len() - 1 - leading_repeats(unique, ts, s0.duplicates, s0.points.len() as int) == n - 1);
                    }
                }
                match insert_rect(&mut rbp, width, height, heuristic) {
                    Some(rect) => {
                        if unique {
                            let np = self.state.points.len();
                            self.state.duplicates.insert(hash, np);
                        }
                        let p = Point::placed(rect, tw, self.state.padding, rotate);
                        self.state.points.push(p);
                        let tex = textures.pop().unwrap();
                        proof {
                            lemma_views_push(self.state.textures@, tex);
                        }
                        self.state.textures.push(tex);
                        let ex: u32 = (rect.x + rect.width) as u32;
                        let ey: u32 = (rect.y + rect.height) as u32;
                        if ex > ww {
                            ww = ex;
                        }
                        if ey > hh {
                            hh = ey;
                        }
                        proof {
                            lemma_views_drop_last(textures@.push(tex));
                            assert(textures@.push(tex).subrange(0, n - 1) =~= textures@);
                            let next = PackRun {
                                remaining: views(textures@),
                                packed: views(self.state.textures@),
                                points: self.state.points@,
                                duplicates: self.state.duplicates@,
                                rects: bin_rects(rbp),
                                ww,
                                hh,
                            };
                            assert(next =~= place_step(cfg, cur, t, rect.tuple()));
                            assert(views(textures@) =~= ts.take(textures@.len() as int));
                            if s0.is_empty() {
                                assert(footprint(p, t, s0.padding as int) == rect.tuple());
                                lemma_layout_place(
                                    cur.points,
                                    cur.packed,
                                    s0.padding as int,
                                    cur.ww as int,
                                    cur.hh as int,
                                    ww as int,
                                    hh as int,
                                    p,
                                    t,
                                    cur.rects,
                                    rect.tuple(),
                                );
                            }
                            if s0.textures.len() == 0 && s0.points.len() == 0 {
                                assert(footprint(p, t, s0.padding as int) == rect.tuple());
                                lemma_placement_place(
                                    cur.points,
                                    cur.packed,
                                    s0.padding as int,
                                    cur.ww as int,
                                    cur.hh as int,
                                    ww as int,
                                    hh as int,
                                    p,
                                    t,
                                    cur.rects,
                                    rect.tuple(),
                                );
                                assert(turned_only_if(self.state.points@, rotate)) by {
                                    assert forall|i: int| 0 <= i < self.state.points@.len() && (
                                    #[trigger] self.state.points@[i]).rotate implies rotate by {
                                        if i < cur.points.len() {
                                            assert(self.state.points@[i] == cur.points[i]);
                                        }
                                    }
                                }
                            }
                        }
                    },
                    None => {
                        done = true;
                    },
                }
            }
        }
        proof {
            if must_place && bin_rects(rbp).len() == 0 {
                assert(textures@.len() == 0);
                assert(leading_repeats(unique, views(textures@), s0.duplicates, (s0.points.len() + n0) as int) == 0);
            }
        }
        (ww, hh)
    }
}
} // verus!
