use vstd::prelude::*;

use crate::options::{atlas_side, AtlasSize, RectHeuristic};
use crate::packer::{
    adjust_fold, grow_fit_exec, max_need_h, max_need_w, bin_size, is_placed, layout_sound, lemma_adjust_fold_bounds,
    lemma_adjust_fold_prefix, lemma_pack_loop_moves, pack_admissible, pack_loop, pack_outcome,
    popped_order, views, PackConfig, PackRun, Packer, PackerStateView, leading_repeats, any_larger,
    grow_fit, lemma_grow_fit_square,
};
use crate::texture::{Texture, TextureView};

verus! {

/// Why packing textures into atlases failed.
#[derive(Debug, Clone)]
pub enum PackingError {
    /// More atlases were needed than allowed.
    TooManyAtlases,
    /// The texture of this file name did not fit into an empty atlas.
    TextureDoesNotFit(String),
}

/// The settings for packing textures into atlases.
pub struct AtlasConfig {
    pub side: u32,
    pub padding: i32,
    pub generate_mipmaps: bool,
    pub unique: bool,
    pub rotate: bool,
    pub force_square: bool,
    pub adjust_size: bool,
    pub heuristic: RectHeuristic,
    pub max_atlases: int,
}

/// The state of a new, empty packer of the configured atlas size.
pub open spec fn fresh_state(c: AtlasConfig) -> PackerStateView {
    PackerStateView {
        width: c.side,
        height: c.side,
        padding: c.padding,
        generate_mipmaps: c.generate_mipmaps,
        textures: Seq::empty(),
        points: Seq::empty(),
        duplicates: Map::empty(),
    }
}

/// What packing `ts` into atlases gives after the atlases `done`: a new
/// empty packer takes as many textures from the end as fit; this fails when
/// there would be more than `max_atlases` atlases or when the new atlas
/// took none (`Err(Some(name))` names the texture that did not fit,
/// `Err(None)` means too many atlases).
pub open spec fn atlases_outcome(c: AtlasConfig, ts: Seq<TextureView>, done: Seq<PackerStateView>) -> Result<
    Seq<PackerStateView>,
    Option<Seq<char>>,
>
    decreases ts.len(),
{
    if ts.len() == 0 {
        Ok(done)
    } else {
        let (s, rest) = pack_outcome(
            fresh_state(c),
            ts,
            c.unique,
            c.rotate,
            c.force_square,
            c.adjust_size,
            c.heuristic,
        );
        if done.len() + 1 > c.max_atlases {
            Err(None)
        } else if s.textures.len() == 0 {
            Err(Some(ts.last().file_name))
        } else {
            proof {
                lemma_pack_outcome_moves(c, ts);
            }
            atlases_outcome(c, rest, done.push(s))
        }
    }
}

/// A pack into a new empty packer takes textures from the end of `ts`: the
/// rest is a first part of `ts`, and the packed textures are the others in
/// the order they came off.
pub proof fn lemma_pack_outcome_moves(c: AtlasConfig, ts: Seq<TextureView>)
    ensures
        ({
            let (s, rest) = pack_outcome(
                fresh_state(c),
                ts,
                c.unique,
                c.rotate,
                c.force_square,
                c.adjust_size,
                c.heuristic,
            );
            &&& rest.len() <= ts.len()
            &&& rest == ts.take(rest.len() as int)
            &&& s.textures == popped_order(ts.skip(rest.len() as int))
            &&& s.textures.len() == ts.len() - rest.len()
        }),
{
    let s0 = fresh_state(c);
    let b = bin_size(s0, ts, c.adjust_size);
    let cfg = PackConfig {
        unique: c.unique,
        rotate: c.rotate,
        padding: s0.padding,
        heuristic: c.heuristic,
        bin_width: b.0 as i32,
        bin_height: b.1 as i32,
    };
    let run0 = PackRun {
        remaining: ts,
        packed: s0.textures,
        points: s0.points,
        duplicates: s0.duplicates,
        rects: Seq::empty(),
        ww: 0,
        hh: 0,
    };
    lemma_pack_loop_moves(cfg, run0);
    let r = pack_loop(cfg, run0);
    assert(s0.textures + popped_order(ts.skip(r.remaining.len() as int)) =~= popped_order(
        ts.skip(r.remaining.len() as int),
    ));
}

/// Growing a square atlas leaves it square.
proof fn lemma_grow_fit_keeps_square(need_w: int, need_h: int, w: int)
    ensures
        grow_fit(need_w, need_h, w, w).0 == grow_fit(need_w, need_h, w, w).1,
{
    lemma_grow_fit_square(need_w, need_h, w, w);
}

/// `adjust_size_to_fit` on a square atlas leaves it square.
proof fn lemma_adjust_fold_keeps_square(ts: Seq<TextureView>, side: int, padding: int)
    ensures
        adjust_fold(ts, side, side, padding).0 == adjust_fold(ts, side, side, padding).1,
    decreases ts.len(),
{
    if ts.len() > 0 {
        lemma_adjust_fold_keeps_square(ts.drop_last(), side, padding);
        let prev = adjust_fold(ts.drop_last(), side, side, padding);
        lemma_grow_fit_keeps_square(max_need_w(ts, padding), max_need_h(ts, padding), prev.0);
    }
}

/// Every atlas in `ss` has the configured side in both directions when the
/// size is not adjusted, and is square in any case.
pub open spec fn all_square_of_side(c: AtlasConfig, ss: Seq<PackerStateView>) -> bool {
    forall|i: int|
        0 <= i < ss.len() ==> {
            &&& #[trigger] ss[i].width == ss[i].height
            &&& !c.adjust_size ==> ss[i].width == c.side
        }
}

/// The atlases that packing after the atlases `done` adds keep a forced
/// square side.
proof fn lemma_force_square_from(c: AtlasConfig, ts: Seq<TextureView>, done: Seq<PackerStateView>)
    requires
        c.force_square,
        all_square_of_side(c, done),
    ensures
        atlases_outcome(c, ts, done) is Ok ==> all_square_of_side(c, atlases_outcome(c, ts, done)->Ok_0),
    decreases ts.len(),
{
    if ts.len() > 0 {
        let (s, rest) = pack_outcome(
            fresh_state(c),
            ts,
            c.unique,
            c.rotate,
            c.force_square,
            c.adjust_size,
            c.heuristic,
        );
        if done.len() + 1 <= c.max_atlases && s.textures.len() != 0 {
            lemma_pack_outcome_moves(c, ts);
            lemma_adjust_fold_keeps_square(ts, c.side as int, c.padding as int);
            assert forall|i: int| 0 <= i < done.push(s).len() implies {
                &&& #[trigger] done.push(s)[i].width == done.push(s)[i].height
                &&& !c.adjust_size ==> done.push(s)[i].width == c.side
            } by {
                if i < done.len() {
                    assert(done.push(s)[i] == done[i]);
                }
            }
            lemma_force_square_from(c, rest, done.push(s));
        }
    }
}

/// Law: with `force_square`, packing into atlases never shrinks an atlas:
/// each atlas it gives is square, and has exactly the configured side when
/// the size is not adjusted.
pub proof fn lemma_force_square_keeps_side(c: AtlasConfig, ts: Seq<TextureView>)
    requires
        c.force_square,
    ensures
        atlases_outcome(c, ts, Seq::empty()) is Ok ==> all_square_of_side(
            c,
            atlases_outcome(c, ts, Seq::empty())->Ok_0,
        ),
{
    lemma_force_square_from(c, ts, Seq::empty());
}

/// All textures packed into `states`, atlas after atlas.
pub open spec fn all_packed(states: Seq<PackerStateView>) -> Seq<TextureView>
    decreases states.len(),
{
    if states.len() == 0 {
        Seq::empty()
    } else {
        all_packed(states.drop_last()) + states.last().textures
    }
}

/// The inputs on which `pack_atlases` runs through: each texture, with
/// `padding` added to each side, has positive sides that fit an `i32` (with
/// `AreaFit`, its area fits too; with `ContactPoint`, twice the sum of its
/// sides does), and, with `adjust_size`, an atlas of `side` can grow to fit
/// each texture within `MAX_SIZE`.
pub open spec fn atlases_admissible(
    side: u32,
    padding: int,
    adjust_size: bool,
    heuristic: RectHeuristic,
    ts: Seq<TextureView>,
) -> bool {
    &&& forall|i: int|
        0 <= i < ts.len() ==> {
            &&& 0 < #[trigger] ts[i].width + padding <= i32::MAX
            &&& 0 < ts[i].height + padding <= i32::MAX
        }
    &&& heuristic == RectHeuristic::AreaFit ==> forall|i: int|
        0 <= i < ts.len() ==> (#[trigger] ts[i].width + padding) * (ts[i].height + padding)
            <= i32::MAX
    &&& heuristic == RectHeuristic::ContactPoint ==> forall|i: int|
        0 <= i < ts.len() ==> 2 * ((#[trigger] ts[i].width + padding) + (ts[i].height + padding))
            <= i32::MAX
    &&& adjust_size ==> adjust_fold(ts, side as int, side as int, padding).3
}

/// The packer states of a sequence of packers.
pub open spec fn packer_views(ps: Seq<Packer>) -> Seq<PackerStateView> {
    ps.map_values(|p: Packer| p.state@)
}

/// The states of all atlases in `ps` lay their textures out soundly.
pub open spec fn all_sound(ps: Seq<PackerStateView>) -> bool {
    forall|i: int|
        0 <= i < ps.len() ==> layout_sound(
            #[trigger] ps[i].points,
            ps[i].textures,
            ps[i].padding as int,
            ps[i].width as int,
            ps[i].height as int,
        )
}

/// Packs all `textures` into as many atlases of `atlas_size` as needed, each
/// packer taking as many textures from the end as fit; `textures` ends up
/// empty.
///
/// # Errors
///
/// `TooManyAtlases` when more than `max_atlases` atlases would be needed;
/// `TextureDoesNotFit` (with the texture's file name) when a new atlas took
/// no texture.
pub fn pack_atlases(
    textures: &mut Vec<Texture>,
    atlas_size: AtlasSize,
    padding: u8,
    generate_mipmaps: bool,
    unique: bool,
    rotate: bool,
    force_square: bool,
    adjust_size: bool,
    heuristic: RectHeuristic,
    max_atlases: u16,
) -> (r: Result<Vec<Packer>, PackingError>)
    requires
        atlases_admissible(
            atlas_side(atlas_size),
            padding as int,
            adjust_size,
            heuristic,
            views(old(textures)@),
        ),
    ensures
        ({
            let c = AtlasConfig {
                side: atlas_side(atlas_size),
                padding: padding as i32,
                generate_mipmaps,
                unique,
                rotate,
                force_square,
                adjust_size,
                heuristic,
                max_atlases: max_atlases as int,
            };
            match r {
                Ok(ps) => {
                    &&& atlases_outcome(c, views(old(textures)@), Seq::empty()) == Ok::<
                        Seq<PackerStateView>,
                        Option<Seq<char>>,
                    >(packer_views(ps@))
                    &&& final(textures)@.len() == 0
                    &&& ps@.len() <= max_atlases
                    &&& all_packed(packer_views(ps@)) == popped_order(views(old(textures)@))
                    &&& all_sound(packer_views(ps@))
                    &&& forall|i: int| 0 <= i < ps@.len() ==> #[trigger] ps@[i].state@.textures.len() > 0
                },
                Err(PackingError::TooManyAtlases) => atlases_outcome(
                    c,
                    views(old(textures)@),
                    Seq::empty(),
                ) == Err::<Seq<PackerStateView>, Option<Seq<char>>>(None),
                Err(PackingError::TextureDoesNotFit(name)) => atlases_outcome(
                    c,
                    views(old(textures)@),
                    Seq::empty(),
                ) == Err::<Seq<PackerStateView>, Option<Seq<char>>>(Some(name@)),
            }
        }),
{
    let ghost c = AtlasConfig {
        side: atlas_side(atlas_size),
        padding: padding as i32,
        generate_mipmaps,
        unique,
        rotate,
        force_square,
        adjust_size,
        heuristic,
        max_atlases: max_atlases as int,
    };
    let ghost ts = views(textures@);
    let ghost target = atlases_outcome(c, ts, Seq::empty());
    let mut packers: Vec<Packer> = Vec::new();
    let side = atlas_size.side();
    proof {
        assert(ts.take(ts.len() as int) =~= ts);
        assert(packer_views(packers@) =~= Seq::<PackerStateView>::empty());
        assert(popped_order(ts.skip(ts.len() as int)) =~= Seq::<TextureView>::empty());
    }
    while textures.len() > 0
        invariant
            c == (AtlasConfig {
                side: atlas_side(atlas_size),
                padding: padding as i32,
                generate_mipmaps,
                unique,
                rotate,
                force_square,
                adjust_size,
                heuristic,
                max_atlases: max_atlases as int,
            }),
            side == c.side,
            ts == views(old(textures)@),
            target == atlases_outcome(c, ts, Seq::empty()),
            atlases_admissible(c.side, c.padding as int, c.adjust_size, c.heuristic, ts),
            views(textures@) == ts.take(textures@.len() as int),
            textures@.len() <= ts.len(),
            atlases_outcome(c, views(textures@), packer_views(packers@)) == target,
            packers@.len() <= max_atlases,
            all_packed(packer_views(packers@)) == popped_order(ts.skip(textures@.len() as int)),
            all_sound(packer_views(packers@)),
            forall|i: int| 0 <= i < packers@.len() ==> #[trigger] packers@[i].state@.textures.len() > 0,
        decreases textures@.len(),
    {
        let ghost rem = views(textures@);
        let ghost done = packer_views(packers@);
        let mut packer = Packer::new(side, side, padding as i32, generate_mipmaps).unwrap();
        proof {
            assert(packer.state@ == fresh_state(c));
            assert(packer.state@.duplicates =~= Map::<u64, usize>::empty());
            lemma_admissible_prefix(c, ts, textures@.len() as int);
        }
        packer.pack(textures, unique, rotate, force_square, adjust_size, heuristic);
        proof {
            lemma_pack_outcome_moves(c, rem);
        }
        let ghost s = packer.state@;
        let empty = packer.state.textures.len() == 0;
        packers.push(packer);
        proof {
            assert(packer_views(packers@) =~= done.push(s));
        }
        if packers.len() > max_atlases as usize {
            proof {
                assert(rem.len() > 0);
                assert(atlases_outcome(c, rem, done) == Err::<Seq<PackerStateView>, Option<Seq<char>>>(None));
            }
            return Err(PackingError::TooManyAtlases);
        }
        if empty {
            let name = textures[textures.len() - 1].file_name.clone();
            proof {
                assert(rem.last() == textures@[textures@.len() - 1]@);
            }
            return Err(PackingError::TextureDoesNotFit(name));
        }
        proof {
            let k = textures@.len() as int;
            let n = rem.len() as int;
            assert(views(textures@) =~= ts.take(k));
            assert(done.push(s).drop_last() =~= done);
            assert(all_packed(done.push(s)) == all_packed(done) + s.textures);
            assert(rem.skip(k) =~= ts.subrange(k, n));
            assert(popped_order(ts.skip(n)) + popped_order(ts.subrange(k, n)) =~= popped_order(ts.skip(k)));
            assert forall|i: int| 0 <= i < packers@.len() implies #[trigger] packers@[i].state@.textures.len() > 0 by {
                if i < packers@.len() - 1 {
                    assert(packer_views(packers@)[i] == done[i]);
                }
            }
            assert forall|i: int| 0 <= i < done.push(s).len() implies layout_sound(
                #[trigger] done.push(s)[i].points,
                done.push(s)[i].textures,
                done.push(s)[i].padding as int,
                done.push(s)[i].width as int,
                done.push(s)[i].height as int,
            ) by {
                if i < done.len() {
                    assert(done.push(s)[i] == done[i]);
                }
            }
        }
    }
    proof {
        assert(packer_views(packers@) == match target { Ok(v) => v, Err(_) => packer_views(packers@) });
        assert(ts.skip(0) =~= ts);
    }
    Ok(packers)
}

/// Whatever first part of the textures is left to pack, a new packer can
/// pack it.
proof fn lemma_admissible_prefix(c: AtlasConfig, ts: Seq<TextureView>, k: int)
    requires
        atlases_admissible(c.side, c.padding as int, c.adjust_size, c.heuristic, ts),
        0 < k <= ts.len(),
        c.padding >= 0,
        64 <= c.side <= 8192,
    ensures
        pack_admissible(
            fresh_state(c),
            ts.take(k),
            c.unique,
            c.force_square,
            c.adjust_size,
            c.heuristic,
        ),
{
    let r = ts.take(k);
    let s = fresh_state(c);
    if c.adjust_size {
        lemma_adjust_fold_prefix(ts, c.side as int, c.side as int, c.padding as int, k);
        lemma_adjust_fold_bounds(r, c.side as int, c.side as int, c.padding as int);
    }
    let b = bin_size(s, r, c.adjust_size);
    assert(b.0 * b.1 <= i32::MAX) by (nonlinear_arith)
        requires
            0 < b.0 <= 8192,
            0 < b.1 <= 8192,
    ;
    assert(leading_repeats(c.unique, r, s.duplicates, 0) == 0);
    assert(r[r.len() - 1] == ts[k - 1]);
    assert forall|i: int| 0 <= i < r.len() implies #[trigger] r[i].width + c.padding <= i32::MAX
        && r[i].height + c.padding <= i32::MAX by {
        assert(r[i] == ts[i]);
        assert(0 < ts[i].width + c.padding <= i32::MAX);
    }
    if c.heuristic == RectHeuristic::AreaFit {
        assert forall|i: int| 0 <= i < r.len() implies (#[trigger] r[i].width + c.padding) * (
        r[i].height + c.padding) <= i32::MAX by {
            assert(r[i] == ts[i]);
        }
    }
    if c.heuristic == RectHeuristic::ContactPoint {
        assert forall|i: int| 0 <= i < r.len() implies 2 * ((#[trigger] r[i].width + c.padding)
            + (r[i].height + c.padding)) <= i32::MAX by {
            assert(r[i] == ts[i]);
        }
    }
    assert(0 < ts[k - 1].width + c.padding);
}

/// Whether growing a square atlas of side `side` for `textures` (as
/// `adjust_size_to_fit` does, with `padding`) fits each texture within
/// `MAX_SIZE`.
fn adjust_stays_in_bounds(textures: &Vec<Texture>, side: u32, padding: u32) -> (r: bool)
    requires
        64 <= side <= 8192,
        padding <= 255,
    ensures
        r == adjust_fold(views(textures@), side as int, side as int, padding as int).3,
{
    let ghost ts = views(textures@);
    let pad: u64 = padding as u64;
    let mut w: u32 = side;
    let mut h: u32 = side;
    let mut mw: u64 = 0;
    let mut mh: u64 = 0;
    let mut i: usize = 0;
    proof {
        assert(ts.take(0) =~= Seq::<TextureView>::empty());
    }
    while i < textures.len()
        invariant
            ts == views(textures@),
            pad == padding,
            i <= textures@.len(),
            64 <= side <= 8192,
            ({
                let f = adjust_fold(ts.take(i as int), side as int, side as int, padding as int);
                &&& f.0 == w
                &&& f.1 == h
                &&& f.3
            }),
            mw == max_need_w(ts.take(i as int), padding as int),
            mh == max_need_h(ts.take(i as int), padding as int),
            mw <= u32::MAX + 255,
            mh <= u32::MAX + 255,
        decreases textures@.len() - i,
    {
        let t = &textures[i];
        proof {
            assert(ts[i as int] == t@);
            assert(ts.take(i + 1).drop_last() =~= ts.take(i as int));
            assert(ts.take(i + 1).last() == t@);
        }
        let tw: u64 = t.width as u64 + pad;
        let th: u64 = t.height as u64 + pad;
        if tw > mw {
            mw = tw;
        }
        if th > mh {
            mh = th;
        }
        let grown = grow_fit_exec(mw, mh, w, h);
        if grown.0 > 8192 || grown.1 > 8192 || mw > grown.0 as u64 || mh > grown.1 as u64 {
            proof {
                if adjust_fold(ts, side as int, side as int, padding as int).3 {
                    lemma_adjust_fold_prefix(ts, side as int, side as int, padding as int, i + 1);
                }
            }
            return false;
        }
        w = if grown.0 < 64 { 64 } else { grown.0 };
        h = if grown.1 < 64 { 64 } else { grown.1 };
        i = i + 1;
    }
    proof {
        assert(ts.take(i as int) =~= ts);
    }
    true
}

/// Whether `pack_atlases` can take these inputs: exactly
/// `atlases_admissible`, for a caller to test first.
pub fn can_pack_atlases(
    textures: &Vec<Texture>,
    atlas_size: AtlasSize,
    padding: u8,
    adjust_size: bool,
    heuristic: RectHeuristic,
) -> (r: bool)
    ensures
        r == atlases_admissible(
            atlas_side(atlas_size),
            padding as int,
            adjust_size,
            heuristic,
            views(textures@),
        ),
{
    let ghost ts = views(textures@);
    let pad: u64 = padding as u64;
    let mut i: usize = 0;
    while i < textures.len()
        invariant
            ts == views(textures@),
            pad == padding,
            i <= textures@.len(),
            forall|j: int|
                0 <= j < i ==> {
                    &&& 0 < #[trigger] ts[j].width + pad <= i32::MAX
                    &&& 0 < ts[j].height + pad <= i32::MAX
                },
            heuristic == RectHeuristic::AreaFit ==> forall|j: int|
                0 <= j < i ==> (#[trigger] ts[j].width + pad) * (ts[j].height + pad) <= i32::MAX,
            heuristic == RectHeuristic::ContactPoint ==> forall|j: int|
                0 <= j < i ==> 2 * ((#[trigger] ts[j].width + pad) + (ts[j].height + pad))
                    <= i32::MAX,
        decreases textures@.len() - i,
    {
        let t = &textures[i];
        proof {
            assert(ts[i as int] == t@);
        }
        let w: u64 = t.width as u64 + pad;
        let h: u64 = t.height as u64 + pad;
        if w == 0 || w > 0x7fff_ffff || h == 0 || h > 0x7fff_ffff {
            proof {
                let k = i as int;
                assert(!(0 < ts[k].width + pad <= i32::MAX && 0 < ts[k].height + pad <= i32::MAX));
            }
            return false;
        }
        if heuristic == RectHeuristic::AreaFit {
            proof {
                assert(w * h <= 0x7fff_ffff * 0x7fff_ffff) by (nonlinear_arith)
                    requires
                        w <= 0x7fff_ffff,
                        h <= 0x7fff_ffff,
                ;
            }
            if w * h > 0x7fff_ffff {
                proof {
                    let k = i as int;
                    assert((ts[k].width + pad) * (ts[k].height + pad) > i32::MAX);
                }
                return false;
            }
        }
        if heuristic == RectHeuristic::ContactPoint && 2 * (w + h) > 0x7fff_ffff {
            proof {
                let k = i as int;
                assert(2 * ((ts[k].width + pad) + (ts[k].height + pad)) > i32::MAX);
            }
            return false;
        }
        i = i + 1;
    }
    if adjust_size {
        adjust_stays_in_bounds(textures, atlas_size.side(), padding as u32)
    } else {
        true
    }
}

} // verus!
