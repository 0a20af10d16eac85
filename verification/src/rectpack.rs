use vstd::prelude::*;

use crate::options::RectHeuristic;

verus! {

/// The bin of `flow_rectpack` that rectangles are packed into.
#[verifier::external_type_specification]
#[verifier::external_body]
pub struct ExRectsBinPack(flow_rectpack::RectsBinPack);

/// The error of `flow_rectpack`: an invalid argument.
#[verifier::external_type_specification]
#[verifier::external_body]
pub struct ExRectsBinPackError(flow_rectpack::RectsBinPackError);

/// A rectangle placed in a bin: its top-left corner and its size (as placed,
/// so width and height are swapped when the rectangle was turned).
#[derive(Debug, Clone, Copy, PartialEq, Eq, Structural)]
pub struct PlacedRect {
    pub x: i32,
    pub y: i32,
    pub width: i32,
    pub height: i32,
}

impl PlacedRect {
    /// The rectangle as a tuple `(x, y, width, height)`.
    pub open spec fn tuple(self) -> (i32, i32, i32, i32) {
        (self.x, self.y, self.width, self.height)
    }
}

/// The size a bin was made with and whether it may turn rectangles:
/// `(width, height, allow_flip)`.
pub uninterp spec fn bin_frame(bin: flow_rectpack::RectsBinPack) -> (i32, i32, bool);

/// The rectangles placed in a bin so far, as `(x, y, width, height)`, in the
/// order they were placed.
pub uninterp spec fn bin_rects(bin: flow_rectpack::RectsBinPack) -> Seq<(i32, i32, i32, i32)>;

/// Where `RectsBinPack::insert` places a `w` x `h` rectangle with the given
/// heuristic, in a bin of the given frame that already holds `placed`
/// (`None`: it does not fit).
pub uninterp spec fn rect_placement(
    width: i32,
    height: i32,
    allow_flip: bool,
    placed: Seq<(i32, i32, i32, i32)>,
    w: i32,
    h: i32,
    heuristic: RectHeuristic,
) -> Option<(i32, i32, i32, i32)>;

/// `r = (x, y, w, h)` lies inside a `width` x `height` frame.
pub open spec fn rect_inside(r: (i32, i32, i32, i32), width: int, height: int) -> bool {
    &&& 0 <= r.0
    &&& 0 <= r.1
    &&& r.0 + r.2 <= width
    &&& r.1 + r.3 <= height
}

/// Rectangles `a` and `b` (each `(x, y, w, h)`) share no area.
pub open spec fn rects_disjoint(a: (i32, i32, i32, i32), b: (i32, i32, i32, i32)) -> bool {
    a.0 + a.2 <= b.0 || b.0 + b.2 <= a.0 || a.1 + a.3 <= b.1 || b.1 + b.3 <= a.1
}

/// Makes an empty bin with `RectsBinPack::new`.
///
/// Claimed, as the crate's source shows: the bin is made exactly when both
/// sides are positive (else `InvalidArg`), it holds no rectangle, and it
/// keeps the given size and turning flag.
#[verifier::external_body]
pub(crate) fn new_bin(width: i32, height: i32, allow_flip: bool) -> (r: Result<
    flow_rectpack::RectsBinPack,
    flow_rectpack::RectsBinPackError,
>)
    ensures
        match r {
            Ok(bin) => {
                &&& width > 0 && height > 0
                &&& bin_frame(bin) == (width, height, allow_flip)
                &&& bin_rects(bin) == Seq::<(i32, i32, i32, i32)>::empty()
            },
            Err(_) => !(width > 0 && height > 0),
        },
{
    flow_rectpack::RectsBinPack::new(width, height, allow_flip)
}

/// Places a `w` x `h` rectangle in the bin with `RectsBinPack::insert`.
///
/// Claimed: the result is `rect_placement` of the bin's frame, its placed
/// rectangles and the arguments; a placed rectangle is appended to the
/// bin's rectangles and a refused one changes nothing. As the crate's source
/// shows: a placed rectangle has the requested size, or (only when the bin
/// may turn rectangles) the size turned; a zero side is never placed; an
/// empty bin places any positive rectangle that fits upright (each
/// heuristic's score for it beats the score it starts from). As the crate
/// documents ("no two rectangles may intersect"), and as its free-rectangle
/// bookkeeping keeps: a placed rectangle lies inside the bin and shares no
/// area with the rectangles placed before. The choice among the free places,
/// which the heuristics make, is not stated. The crate scores places in
/// `i32`: `AreaFit` multiplies sides, and `ContactPoint` sums contact
/// lengths, at most the rectangle's perimeter; the requires keep these
/// within `i32` (beyond, the crate overflows).
#[verifier::external_body]
pub(crate) fn insert_rect(bin: &mut flow_rectpack::RectsBinPack, w: i32, h: i32, heuristic: RectHeuristic) -> (r: Option<PlacedRect>)
    requires
        0 <= w,
        0 <= h,
        bin_frame(*old(bin)).0 > 0,
        bin_frame(*old(bin)).1 > 0,
        heuristic == RectHeuristic::AreaFit ==> w * h <= i32::MAX && bin_frame(*old(bin)).0
            * bin_frame(*old(bin)).1 <= i32::MAX,
        heuristic == RectHeuristic::ContactPoint ==> 2 * (w + h) <= i32::MAX,
    ensures
        bin_frame(*final(bin)) == bin_frame(*old(bin)),
        ({
            let f = bin_frame(*old(bin));
            match r {
                Some(p) => rect_placement(f.0, f.1, f.2, bin_rects(*old(bin)), w, h, heuristic)
                    == Some(p.tuple()),
                None => rect_placement(f.0, f.1, f.2, bin_rects(*old(bin)), w, h, heuristic)
                    is None,
            }
        }),
        match r {
            Some(p) => bin_rects(*final(bin)) == bin_rects(*old(bin)).push(p.tuple()),
            None => bin_rects(*final(bin)) == bin_rects(*old(bin)),
        },
        r matches Some(p) ==> {
            let f = bin_frame(*old(bin));
            &&& (p.width == w && p.height == h) || (f.2 && p.width == h && p.height == w)
            &&& rect_inside(p.tuple(), f.0 as int, f.1 as int)
            &&& forall|i: int|
                0 <= i < bin_rects(*old(bin)).len() ==> rects_disjoint(
                    #[trigger] bin_rects(*old(bin))[i],
                    p.tuple(),
                )
        },
        w == 0 || h == 0 ==> r is None,
        bin_rects(*old(bin)).len() == 0 && 0 < w <= bin_frame(*old(bin)).0 && 0 < h
            <= bin_frame(*old(bin)).1 ==> r is Some,
{
    let h2 = match heuristic {
        RectHeuristic::ShortSideFit => flow_rectpack::FreeRectHeuristic::ShortSideFit,
        RectHeuristic::LongSideFit => flow_rectpack::FreeRectHeuristic::LongSideFit,
        RectHeuristic::AreaFit => flow_rectpack::FreeRectHeuristic::AreaFit,
        RectHeuristic::BottomLeft => flow_rectpack::FreeRectHeuristic::BottomLeft,
        RectHeuristic::ContactPoint => flow_rectpack::FreeRectHeuristic::ContactPoint,
    };
    bin.insert(w, h, h2).map(|r| PlacedRect { x: r.x, y: r.y, width: r.width, height: r.height })
}

} // verus!
