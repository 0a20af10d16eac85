use vstd::prelude::*;

use crate::packer::{popped_order, views};
use crate::texture::{Texture, TextureView};

verus! {

/// The area of a texture.
pub open spec fn area(t: TextureView) -> int {
    t.width as int * t.height as int
}

/// Whether a texture has area `a`.
pub open spec fn with_area(a: int) -> spec_fn(TextureView) -> bool {
    |t: TextureView| area(t) == a
}

/// The textures are in ascending order of area.
pub open spec fn area_sorted(ts: Seq<TextureView>) -> bool {
    forall|i: int, j: int| 0 <= i < j < ts.len() ==> area(#[trigger] ts[i]) <= area(#[trigger] ts[j])
}

/// For every area, the textures of that area come in the same order in
/// `a` as in `b`.
pub open spec fn same_area_order(a: Seq<TextureView>, b: Seq<TextureView>) -> bool {
    forall|x: int| #[trigger] a.filter(with_area(x)) == b.filter(with_area(x))
}

/// Every texture's area fits a `u32`.
pub open spec fn areas_fit(ts: Seq<TextureView>) -> bool {
    forall|i: int| 0 <= i < ts.len() ==> area(#[trigger] ts[i]) <= u32::MAX
}

/// Filtering a sequence of which no element passes gives nothing.
proof fn lemma_filter_none(s: Seq<TextureView>, p: spec_fn(TextureView) -> bool)
    requires
        forall|i: int| 0 <= i < s.len() ==> !p(#[trigger] s[i]),
    ensures
        s.filter(p) == Seq::<TextureView>::empty(),
    decreases s.len(),
{
    reveal_with_fuel(Seq::filter, 1);
    if s.len() > 0 {
        lemma_filter_none(s.drop_last(), p);
    }
}

/// Filtering `s` with one more element at the end.
proof fn lemma_filter_push(s: Seq<TextureView>, t: TextureView, p: spec_fn(TextureView) -> bool)
    ensures
        s.push(t).filter(p) == (if p(t) {
            s.filter(p).push(t)
        } else {
            s.filter(p)
        }),
{
    reveal_with_fuel(Seq::filter, 1);
    assert(s.push(t).drop_last() =~= s);
}

/// Sorts the textures by ascending area; textures of equal area keep their
/// order (a stable sort).
pub fn sort_textures(textures: &mut Vec<Texture>)
    requires
        areas_fit(views(old(textures)@)),
    ensures
        final(textures)@.len() == old(textures)@.len(),
        area_sorted(views(final(textures)@)),
        same_area_order(views(final(textures)@), views(old(textures)@)),
{
    let ghost orig = views(textures@);
    let len0 = textures.len();
    let ghost n = orig.len();
    let mut sorted: Vec<Texture> = Vec::new();
    let mut k: usize = 0;
    proof {
        assert(orig.len() == textures@.len());
        assert(views(textures@) =~= orig.skip(0));
        assert forall|x: int| #[trigger] views(sorted@).filter(with_area(x)) == orig.take(0).filter(
            with_area(x),
        ) by {
            assert(views(sorted@) =~= Seq::<TextureView>::empty());
            assert(orig.take(0) =~= Seq::<TextureView>::empty());
            lemma_filter_none(Seq::<TextureView>::empty(), with_area(x));
        }
    }
    while textures.len() > 0
        invariant
            n == orig.len(),
            n <= usize::MAX,
            areas_fit(orig),
            k <= n,
            views(textures@) == orig.skip(k as int),
            views(sorted@).len() == k,
            area_sorted(views(sorted@)),
            areas_fit(views(sorted@)),
            forall|x: int| #[trigger] views(sorted@).filter(with_area(x)) == orig.take(
                k as int,
            ).filter(with_area(x)),
        decreases textures@.len(),
    {
        let ghost before = views(sorted@);
        let ghost rest = textures@;
        proof {
            assert(views(rest).len() == rest.len());
            assert(views(rest)[0] == rest[0]@);
            assert(orig.skip(k as int)[0] == orig[k as int]);
        }
        let t = textures.remove(0);
        proof {
            assert(t@ == orig[k as int]);
            assert(views(textures@) =~= orig.skip(k + 1)) by {
                assert forall|i: int| 0 <= i < textures@.len() implies views(textures@)[i]
                    == orig.skip(k + 1)[i] by {
                    assert(textures@[i] == rest[i + 1]);
                    assert(views(rest)[i + 1] == rest[i + 1]@);
                }
            }
            assert forall|i: int| 0 <= i < sorted@.len() implies #[trigger] sorted@[i].width as int
                * sorted@[i].height as int <= u32::MAX by {
                assert(before[i] == sorted@[i]@);
            }
        }
        let area_t = t.get_area();
        let mut j: usize = sorted.len();
        while j > 0 && sorted[j - 1].get_area() > area_t
            invariant
                before == views(sorted@),
                areas_fit(before),
                j <= before.len(),
                area_t == area(t@),
                forall|i: int| 0 <= i < sorted@.len() ==> #[trigger] sorted@[i].width as int
                    * sorted@[i].height as int <= u32::MAX,
                forall|i: int| j <= i < before.len() ==> area(#[trigger] before[i]) > area_t,
            decreases j,
        {
            proof {
                assert(before[j - 1] == sorted@[j - 1]@);
            }
            j = j - 1;
        }
        proof {
            if j > 0 {
                assert(before[j - 1] == sorted@[j - 1]@);
            }
            assert(forall|i: int| 0 <= i < j ==> area(#[trigger] before[i]) <= area_t) by {
                assert forall|i: int| 0 <= i < j implies area(#[trigger] before[i]) <= area_t by {
                    if i < j - 1 {
                        assert(area(before[i]) <= area(before[j - 1]));
                    }
                }
            }
        }
        sorted.insert(j, t);
        k = k + 1;
        proof {
            let after = views(sorted@);
            let lo = before.take(j as int);
            let hi = before.skip(j as int);
            assert(after =~= lo + seq![t@] + hi);
            assert(before =~= lo + hi);
            assert(orig.take(k as int) =~= orig.take(k - 1).push(t@));
            assert forall|i: int| 0 <= i < after.len() implies area(#[trigger] after[i]) <= u32::MAX by {
                if i < j {
                    assert(after[i] == before[i]);
                } else if i > j {
                    assert(after[i] == before[i - 1]);
                }
            }
            assert forall|i: int, i2: int| 0 <= i < i2 < after.len() implies area(
                #[trigger] after[i],
            ) <= area(#[trigger] after[i2]) by {
                if i < j && i2 > j {
                    assert(after[i] == before[i]);
                    assert(after[i2] == before[i2 - 1]);
                } else if i < j && i2 == j {
                    assert(after[i] == before[i]);
                } else if i == j {
                    assert(after[i2] == before[i2 - 1]);
                } else if i2 < j {
                    assert(after[i] == before[i]);
                    assert(after[i2] == before[i2]);
                } else {
                    assert(after[i] == before[i - 1]);
                    assert(after[i2] == before[i2 - 1]);
                }
            }
            assert forall|x: int| #[trigger] after.filter(with_area(x)) == orig.take(k as int).filter(
                with_area(x),
            ) by {
                let p = with_area(x);
                Seq::filter_distributes_over_add(lo + seq![t@], hi, p);
                Seq::filter_distributes_over_add(lo, seq![t@], p);
                Seq::filter_distributes_over_add(lo, hi, p);
                lemma_filter_push(orig.take(k - 1), t@, p);
                lemma_filter_push(Seq::<TextureView>::empty(), t@, p);
                lemma_filter_none(Seq::<TextureView>::empty(), p);
                assert(seq![t@] =~= Seq::<TextureView>::empty().push(t@));
                assert(views(sorted@).filter(p) == after.filter(p));
                if area(t@) == x {
                    assert forall|i: int| 0 <= i < hi.len() implies !p(#[trigger] hi[i]) by {
                        assert(hi[i] == before[i + j]);
                    }
                    lemma_filter_none(hi, p);
                    assert(lo.filter(p) + seq![t@] + Seq::<TextureView>::empty() =~= (lo.filter(p)
                        + Seq::<TextureView>::empty()).push(t@));
                } else {
                    assert(lo.filter(p) + Seq::<TextureView>::empty() + hi.filter(p) =~= lo.filter(
                        p,
                    ) + hi.filter(p));
                }
            }
        }
    }
    proof {
        assert(orig.take(n as int) =~= orig);
    }
    *textures = sorted;
}

/// Law: packing takes textures from the end of the list, so textures sorted
/// by ascending area are taken largest first: the order in which they come
/// off (`popped_order`, the order of the packed textures) has descending
/// area.
pub proof fn lemma_sorted_pack_largest_first(ts: Seq<TextureView>)
    requires
        area_sorted(ts),
    ensures
        forall|i: int, j: int|
            0 <= i < j < ts.len() ==> area(#[trigger] popped_order(ts)[i]) >= area(
                #[trigger] popped_order(ts)[j],
            ),
{
    assert forall|i: int, j: int| 0 <= i < j < ts.len() implies area(
        #[trigger] popped_order(ts)[i],
    ) >= area(#[trigger] popped_order(ts)[j]) by {
        let n = ts.len() as int;
        assert(popped_order(ts)[i] == ts[n - 1 - i]);
        assert(popped_order(ts)[j] == ts[n - 1 - j]);
        assert(area(ts[n - 1 - j]) <= area(ts[n - 1 - i]));
    }
}

} // verus!
