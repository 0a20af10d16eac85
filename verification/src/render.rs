use vstd::prelude::*;

use crate::packer::{footprint, is_placed, layout_sound, Packer, PackerStateView, Point, MAX_SIZE};
use crate::pixels::{clear_pixel, lemma_pixel_index_bounds, pixel_index, ImageView, Rgba};
use crate::rectpack::{rect_inside, rects_disjoint};
use crate::texture::{pasted, pasted_rot_90cw, Texture, TextureView};

verus! {

/// The pixel at `(x, y)` of `old` after `src` (turned 90 degrees clockwise
/// when `rotate`) is pasted with its top-left corner at `(tx, ty)`.
pub open spec fn pasted_pixel(
    old: ImageView,
    src: ImageView,
    tx: int,
    ty: int,
    rotate: bool,
    x: int,
    y: int,
) -> Rgba {
    if in_pasted_region(src, tx, ty, rotate, x, y) {
        source_pixel(src, tx, ty, rotate, x, y)
    } else {
        old.at(x, y)
    }
}

/// `(x, y)` is covered by `src` (turned when `rotate`) pasted at `(tx, ty)`.
pub open spec fn in_pasted_region(src: ImageView, tx: int, ty: int, rotate: bool, x: int, y: int) -> bool {
    if rotate {
        tx <= x < tx + src.height && ty <= y < ty + src.width
    } else {
        tx <= x < tx + src.width && ty <= y < ty + src.height
    }
}

/// The pixel of `src` that lands on `(x, y)` when `src` (turned when
/// `rotate`) is pasted at `(tx, ty)`.
pub open spec fn source_pixel(src: ImageView, tx: int, ty: int, rotate: bool, x: int, y: int) -> Rgba {
    if rotate {
        src.at(y - ty, src.height - 1 - (x - tx))
    } else {
        src.at(x - tx, y - ty)
    }
}

/// `old` with `src` (turned 90 degrees clockwise when `rotate`) pasted at `(tx, ty)`.
pub open spec fn paste(old: ImageView, src: ImageView, tx: int, ty: int, rotate: bool) -> ImageView {
    ImageView {
        width: old.width,
        height: old.height,
        pixels: Seq::new(
            old.pixels.len(),
            |i: int| pasted_pixel(old, src, tx, ty, rotate, i % (old.width as int), i / (old.width as int)),
        ),
    }
}

/// The pixel at `(x, y)` of a pasted image.
pub proof fn lemma_paste_at(old: ImageView, src: ImageView, tx: int, ty: int, rotate: bool)
    requires
        old.wf(),
    ensures
        paste(old, src, tx, ty, rotate).wf(),
        forall|x: int, y: int|
            old.contains(x, y) ==> #[trigger] paste(old, src, tx, ty, rotate).at(x, y)
                == pasted_pixel(old, src, tx, ty, rotate, x, y),
{
    let w = old.width as int;
    assert forall|x: int, y: int| old.contains(x, y) implies #[trigger] paste(
        old,
        src,
        tx,
        ty,
        rotate,
    ).at(x, y) == pasted_pixel(old, src, tx, ty, rotate, x, y) by {
        lemma_pixel_index_bounds(w, old.height as int, x, y);
        vstd::arithmetic::div_mod::lemma_fundamental_div_mod_converse(pixel_index(w, x, y), w, y, x);
    }
}

/// A relational paste is the paste.
pub proof fn lemma_pasted_eq(old: ImageView, src: ImageView, tx: int, ty: int, rotate: bool, dst: ImageView)
    requires
        old.wf(),
        !rotate ==> pasted(old, src, tx, ty, dst),
        rotate ==> pasted_rot_90cw(old, src, tx, ty, dst),
    ensures
        dst == paste(old, src, tx, ty, rotate),
{
    lemma_paste_at(old, src, tx, ty, rotate);
    let p = paste(old, src, tx, ty, rotate);
    assert forall|x: int, y: int| dst.contains(x, y) implies #[trigger] dst.at(x, y) == p.at(x, y) by {
        assert(old.contains(x, y));
    }
    dst.lemma_ext_equal(p);
}

/// A transparent image of the given size.
pub open spec fn blank(width: u32, height: u32) -> ImageView {
    ImageView {
        width,
        height,
        pixels: Seq::new((width as int * height as int) as nat, |i: int| clear_pixel()),
    }
}

/// The atlas after the first `n` textures were drawn onto `canvas`: each
/// placed texture is pasted at its point, turned when its point says so;
/// repeated textures draw nothing.
pub open spec fn render_steps(canvas: ImageView, ts: Seq<TextureView>, ps: Seq<Point>, n: int) -> ImageView
    decreases n,
{
    if n <= 0 {
        canvas
    } else {
        let prev = render_steps(canvas, ts, ps, n - 1);
        let i = n - 1;
        if is_placed(ps[i]) {
            paste(prev, ts[i].image, ps[i].x as int, ps[i].y as int, ps[i].rotate)
        } else {
            prev
        }
    }
}

/// How many textures the atlas draws: those that have both a texture and a point.
pub open spec fn drawn_count(s: PackerStateView) -> int {
    if s.textures.len() < s.points.len() {
        s.textures.len() as int
    } else {
        s.points.len() as int
    }
}

/// The atlas image of a packer state.
pub open spec fn rendered(s: PackerStateView) -> ImageView {
    render_steps(blank(s.width, s.height), s.textures, s.points, drawn_count(s))
}

/// The inputs on which `render` runs through: a valid atlas size, and each
/// placed texture at a non-negative point, copied inside the atlas (a
/// turned one needs at least one row).
pub open spec fn renderable(s: PackerStateView) -> bool {
    &&& 0 < s.width <= MAX_SIZE
    &&& 0 < s.height <= MAX_SIZE
    &&& forall|i: int|
        0 <= i < drawn_count(s) && is_placed(#[trigger] s.points[i]) ==> drawable_at(
            s.textures[i].image,
            s.points[i],
            s.width,
            s.height,
        )
}

impl Packer {
    /// Draws the atlas: a transparent texture of the atlas size with each
    /// placed texture copied in at its point (turned 90 degrees clockwise
    /// when the point says so), in packing order.
    pub fn render(&self) -> (atlas: Texture)
        requires
            renderable(self.state@),
        ensures
            atlas@ == (TextureView {
                file_path: Seq::empty(),
                file_name: Seq::empty(),
                width: self.state.width,
                height: self.state.height,
                frame_x: 0,
                frame_y: 0,
                frame_w: 0,
                frame_h: 0,
                hash_value: 0,
                image: rendered(self.state@),
            }),
    {
        let mut texture = Texture::with_details(self.state.width, self.state.height).unwrap();
        let ghost s = self.state@;
        let ghost base = texture@;
        proof {
            let b = blank(s.width, s.height);
            assert forall|x: int, y: int| texture@.image.contains(x, y) implies #[trigger] texture@.image.at(
                x,
                y,
            ) == b.at(x, y) by {
                lemma_pixel_index_bounds(s.width as int, s.height as int, x, y);
            }
            texture@.image.lemma_ext_equal(b);
            assert(texture@.file_path =~= Seq::<char>::empty());
            assert(texture@.file_name =~= Seq::<char>::empty());
        }
        let n: usize = if self.state.textures.len() < self.state.points.len() {
            self.state.textures.len()
        } else {
            self.state.points.len()
        };
        let mut i: usize = 0;
        while i < n
            invariant
                s == self.state@,
                renderable(s),
                n == drawn_count(s),
                i <= n,
                n <= self.state.textures@.len(),
                n <= self.state.points@.len(),
                texture@ == base.with_image(render_steps(blank(s.width, s.height), s.textures, s.points, i as int)),
                base.image == blank(s.width, s.height),
                base.image.wf(),
            decreases n - i,
        {
            let point = self.state.points[i];
            let src = &self.state.textures[i];
            let ghost prev = texture@.image;
            proof {
                assert(s.textures[i as int] == src@);
                assert(prev.wf()) by {
                    lemma_render_steps_wf(blank(s.width, s.height), s.textures, s.points, i as int);
                }
                lemma_render_steps_dims(blank(s.width, s.height), s.textures, s.points, i as int);
            }
            if point.duplicate_id == usize::MAX {
                if point.rotate {
                    texture.copy_pixels_rot_90cw(src, point.x as u32, point.y as u32);
                } else {
                    texture.copy_pixels(src, point.x as u32, point.y as u32);
                }
                proof {
                    lemma_pasted_eq(prev, src@.image, point.x as int, point.y as int, point.rotate, texture@.image);
                }
            }
            i = i + 1;
        }
        texture
    }
}

/// Each drawing step keeps the canvas size.
pub proof fn lemma_render_steps_dims(canvas: ImageView, ts: Seq<TextureView>, ps: Seq<Point>, n: int)
    ensures
        render_steps(canvas, ts, ps, n).width == canvas.width,
        render_steps(canvas, ts, ps, n).height == canvas.height,
    decreases n,
{
    if n > 0 {
        lemma_render_steps_dims(canvas, ts, ps, n - 1);
    }
}

/// Each drawing step keeps the canvas well formed.
pub proof fn lemma_render_steps_wf(canvas: ImageView, ts: Seq<TextureView>, ps: Seq<Point>, n: int)
    requires
        canvas.wf(),
    ensures
        render_steps(canvas, ts, ps, n).wf(),
    decreases n,
{
    if n > 0 {
        lemma_render_steps_wf(canvas, ts, ps, n - 1);
        let prev = render_steps(canvas, ts, ps, n - 1);
        let i = n - 1;
        if is_placed(ps[i]) {
            lemma_paste_at(prev, ts[i].image, ps[i].x as int, ps[i].y as int, ps[i].rotate);
        }
    }
}

/// The textures of `s` fit the layout law's assumptions: each is consistent
/// (its buffer has its size), its padded sides fit an `i32`, and a turned
/// placed one has at least one row.
pub open spec fn drawable_textures(s: PackerStateView) -> bool {
    forall|i: int|
        0 <= i < s.textures.len() ==> {
            let t = #[trigger] s.textures[i];
            &&& t.consistent()
            &&& t.width + s.padding <= i32::MAX
            &&& t.height + s.padding <= i32::MAX
            &&& i < s.points.len() && is_placed(s.points[i]) && s.points[i].rotate ==> t.height >= 1
        }
}

/// Texture `i` of `s`, drawn at its point, covers `(x, y)`.
pub open spec fn covers(s: PackerStateView, i: int, x: int, y: int) -> bool {
    in_pasted_region(s.textures[i].image, s.points[i].x as int, s.points[i].y as int, s.points[i].rotate, x, y)
}

/// The pixel of texture `i` of `s` that lands on `(x, y)`.
pub open spec fn texture_pixel_at(s: PackerStateView, i: int, x: int, y: int) -> Rgba {
    source_pixel(s.textures[i].image, s.points[i].x as int, s.points[i].y as int, s.points[i].rotate, x, y)
}

/// A drawn texture covers only pixels of its own footprint.
proof fn lemma_covers_in_footprint(s: PackerStateView, i: int, x: int, y: int)
    requires
        0 <= i < s.textures.len(),
        i < s.points.len(),
        s.padding >= 0,
        drawable_textures(s),
        covers(s, i, x, y),
    ensures
        ({
            let f = footprint(s.points[i], s.textures[i], s.padding as int);
            f.0 <= x < f.0 + f.2 && f.1 <= y < f.1 + f.3
        }),
{
    let t = s.textures[i];
    assert(t.consistent());
}

/// The first `n` drawing steps show each placed texture among them intact.
proof fn lemma_render_prefix(s: PackerStateView, n: int)
    requires
        layout_sound(s.points, s.textures, s.padding as int, s.width as int, s.height as int),
        s.padding >= 0,
        drawable_textures(s),
        0 <= n <= s.points.len(),
    ensures
        render_steps(blank(s.width, s.height), s.textures, s.points, n).wf(),
        forall|i: int, x: int, y: int|
            0 <= i < n && is_placed(#[trigger] s.points[i]) && #[trigger] covers(s, i, x, y) ==> render_steps(
                blank(s.width, s.height),
                s.textures,
                s.points,
                n,
            ).at(x, y) == texture_pixel_at(s, i, x, y),
    decreases n,
{
    let b = blank(s.width, s.height);
    assert(b.wf());
    lemma_render_steps_wf(b, s.textures, s.points, n);
    if n > 0 {
        lemma_render_prefix(s, n - 1);
        let prev = render_steps(b, s.textures, s.points, n - 1);
        lemma_render_steps_dims(b, s.textures, s.points, n - 1);
        let j = n - 1;
        if is_placed(s.points[j]) {
            let pj = s.points[j];
            let tj = s.textures[j];
            lemma_paste_at(prev, tj.image, pj.x as int, pj.y as int, pj.rotate);
            assert forall|i: int, x: int, y: int|
                0 <= i < n && is_placed(#[trigger] s.points[i]) && #[trigger] covers(s, i, x, y) implies render_steps(
                b,
                s.textures,
                s.points,
                n,
            ).at(x, y) == texture_pixel_at(s, i, x, y) by {
                lemma_covers_in_footprint(s, i, x, y);
                assert(rect_inside(footprint(s.points[i], s.textures[i], s.padding as int), s.width as int, s.height as int));
                assert(prev.contains(x, y));
                if i < j {
                    assert(rects_disjoint(
                        footprint(s.points[i], s.textures[i], s.padding as int),
                        footprint(s.points[j], s.textures[j], s.padding as int),
                    ));
                    if covers(s, j, x, y) {
                        lemma_covers_in_footprint(s, j, x, y);
                    }
                }
            }
        }
    }
}

/// Law: packing lays textures out so that the atlas shows each of them
/// intact. When the layout of a packer is sound (as `pack` leaves a packer
/// it started empty) and its textures are drawable, the packer can be
/// rendered, and at every pixel a placed texture covers, the atlas holds the
/// pixel of that texture (turned when its point says so): no texture paints
/// over another.
pub proof fn lemma_atlas_shows_each_texture(s: PackerStateView)
    requires
        layout_sound(s.points, s.textures, s.padding as int, s.width as int, s.height as int),
        s.padding >= 0,
        0 < s.width <= MAX_SIZE,
        0 < s.height <= MAX_SIZE,
        drawable_textures(s),
    ensures
        renderable(s),
        forall|i: int, x: int, y: int|
            0 <= i < s.points.len() && is_placed(#[trigger] s.points[i]) && #[trigger] covers(s, i, x, y)
                ==> rendered(s).at(x, y) == texture_pixel_at(s, i, x, y),
{
    assert(drawn_count(s) == s.points.len());
    lemma_render_prefix(s, s.points.len() as int);
    assert forall|i: int|
        0 <= i < drawn_count(s) && is_placed(#[trigger] s.points[i]) implies drawable_at(
        s.textures[i].image,
        s.points[i],
        s.width,
        s.height,
    ) by {
        let t = s.textures[i];
        assert(t.consistent());
        assert(rect_inside(footprint(s.points[i], t, s.padding as int), s.width as int, s.height as int));
    }
}

/// Whether the texture image `t` at point `p` can be drawn into a
/// `width` x `height` atlas: the condition `renderable` asks of each placed
/// texture.
pub open spec fn drawable_at(t: ImageView, p: Point, width: u32, height: u32) -> bool {
    &&& t.wf()
    &&& 0 <= p.x
    &&& 0 <= p.y
    &&& if p.rotate {
        &&& t.height >= 1
        &&& t.width == 0 || (p.x + t.height <= width && p.y + t.width <= height)
    } else {
        t.width == 0 || t.height == 0 || (p.x + t.width <= width && p.y + t.height <= height)
    }
}

/// Whether texture `t` at point `p` can be drawn into a `width` x `height` atlas.
fn check_drawable(t: &Texture, p: Point, width: u32, height: u32) -> (r: bool)
    ensures
        r == drawable_at(t@.image, p, width, height),
{
    let (w, h) = t.buffer.dimensions();
    let len = t.buffer.pixels().len();
    proof {
        assert(w as int * h as int <= u64::MAX) by (nonlinear_arith)
            requires
                w <= u32::MAX,
                h <= u32::MAX,
        ;
    }
    let area: u64 = w as u64 * h as u64;
    if len as u64 != area || p.x < 0 || p.y < 0 {
        return false;
    }
    let x: u64 = p.x as u64;
    let y: u64 = p.y as u64;
    if p.rotate {
        h >= 1 && (w == 0 || (x + h as u64 <= width as u64 && y + w as u64 <= height as u64))
    } else {
        w == 0 || h == 0 || (x + w as u64 <= width as u64 && y + h as u64 <= height as u64)
    }
}

impl Packer {
    /// Whether `render` can take this packer: exactly `renderable`, for a
    /// caller to test first.
    pub fn can_render(&self) -> (r: bool)
        ensures
            r == renderable(self.state@),
    {
        let ghost s = self.state@;
        if self.state.width == 0 || self.state.width > MAX_SIZE || self.state.height == 0
            || self.state.height > MAX_SIZE {
            return false;
        }
        let n: usize = if self.state.textures.len() < self.state.points.len() {
            self.state.textures.len()
        } else {
            self.state.points.len()
        };
        let mut i: usize = 0;
        while i < n
            invariant
                s == self.state@,
                n == drawn_count(s),
                n <= self.state.textures@.len(),
                n <= self.state.points@.len(),
                i <= n,
                forall|j: int|
                    0 <= j < i && is_placed(#[trigger] s.points[j]) ==> drawable_at(
                        s.textures[j].image,
                        s.points[j],
                        s.width,
                        s.height,
                    ),
            decreases n - i,
        {
            let p = self.state.points[i];
            proof {
                assert(s.textures[i as int] == self.state.textures@[i as int]@);
            }
            if p.duplicate_id == usize::MAX && !check_drawable(
                &self.state.textures[i],
                p,
                self.state.width,
                self.state.height,
            ) {
                proof {
                    assert(is_placed(s.points[i as int]));
                }
                return false;
            }
            i = i + 1;
        }
        true
    }
}

} // verus!
