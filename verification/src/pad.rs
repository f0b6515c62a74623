//! Spacing around content.

use vstd::prelude::*;

use crate::content::Content;
use crate::frame::{spec_can_translate, spec_translate, Frame, FrameView};
use crate::geom::{in_range, spec_scale, Abs, Axes, Length, Point, Rel, Sides, Size, RATIO_ONE};
use crate::regions::{Regions, RegionsView};

verus! {

/// Adds spacing around content.
///
/// The spacing can be specified for each side individually, or for all sides
/// at once.
#[derive(Clone, Copy, PartialEq, Eq, Structural, Hash, Debug)]
pub struct PadElem {
    /// The padding at the left side.
    pub left: Rel<Length>,
    /// The padding at the top side.
    pub top: Rel<Length>,
    /// The padding at the right side.
    pub right: Rel<Length>,
    /// The padding at the bottom side.
    pub bottom: Rel<Length>,
    /// The content to pad at the sides.
    pub body: Content,
}

/// The arguments a padding element is constructed from, each side optional.
#[derive(Clone, Copy, PartialEq, Eq, Structural, Hash, Debug)]
pub struct PadArgs {
    /// The padding for all sides, given by name.
    pub rest: Option<Rel<Length>>,
    /// The padding for all sides, given as a positional argument.
    pub all: Option<Rel<Length>>,
    /// A shorthand to set `left` and `right` to the same value.
    pub x: Option<Rel<Length>>,
    /// A shorthand to set `top` and `bottom` to the same value.
    pub y: Option<Rel<Length>>,
    /// The padding at the left side.
    pub left: Option<Rel<Length>>,
    /// The padding at the top side.
    pub top: Option<Rel<Length>>,
    /// The padding at the right side.
    pub right: Option<Rel<Length>>,
    /// The padding at the bottom side.
    pub bottom: Option<Rel<Length>>,
    /// The content to pad.
    pub body: Content,
}

/// The first present value, or `None`.
pub open spec fn spec_first<T>(a: Option<T>, b: Option<T>) -> Option<T> {
    match a {
        Some(v) => Some(v),
        None => b,
    }
}

/// The value, or no padding.
pub open spec fn spec_or_zero(v: Option<Rel<Length>>) -> Rel<Length> {
    match v {
        Some(r) => r,
        None => Rel::spec_zero(),
    }
}

/// The first present value, or `None`.
fn first<T>(a: Option<T>, b: Option<T>) -> (r: Option<T>)
    ensures
        r == spec_first(a, b),
{
    match a {
        Some(v) => Some(v),
        None => b,
    }
}

/// The value, or no padding.
fn or_zero(v: Option<Rel<Length>>) -> (r: Rel<Length>)
    ensures
        r == spec_or_zero(v),
{
    match v {
        Some(r) => r,
        None => Rel::zero(),
    }
}

/// Growing a length by an inset whose relative part is below one, and then
/// taking the inset relative to the grown length off again, gives back at
/// most the length and falls short of it by less than one unit divided by
/// one minus the relative part: with a relative part of at least zero, the
/// length exactly.
proof fn lemma_shrink_grown_len(s: int, p: Rel<Abs>)
    requires
        p.rel.0 < RATIO_ONE,
        in_range(spec_grown(s, p)),
    ensures
        ({
            let back = spec_grown(s, p) - p.spec_relative_to(Abs(spec_grown(s, p) as i64));
            &&& back <= s
            &&& (s - back) * RATIO_ONE < RATIO_ONE - p.rel.0
            &&& p.rel.0 >= 0 ==> back == s
        }),
{
    let one = RATIO_ONE as int;
    let r = p.rel.0 as int;
    let a = p.abs.0 as int;
    let n = s + a;
    let d = one - r;
    let g = spec_grown(s, p);
    assert(g == (n * one) / d);
    assert(g * d <= n * one < g * d + d) by (nonlinear_arith)
        requires
            d > 0,
            g == (n * one) / d,
    ;
    let q = (r * g) / one;
    assert(q * one <= r * g < q * one + one) by (nonlinear_arith)
        requires
            one > 0,
            q == (r * g) / one,
    ;
    assert((g - q) * one == g * d + (r * g - q * one)) by (nonlinear_arith)
        requires
            d == one - r,
    ;
    assert(g - q <= n && (n - (g - q)) * one < d) by (nonlinear_arith)
        requires
            (g - q) * one == g * d + (r * g - q * one),
            0 <= r * g - q * one < one,
            g * d <= n * one < g * d + d,
            0 < d,
            one > 0,
    ;
    if r >= 0 {
        assert(g - q == n) by (nonlinear_arith)
            requires
                g - q <= n,
                (n - (g - q)) * one < d,
                d <= one,
                one > 0,
        ;
    }
    assert(spec_scale(r, g) == q);
    assert(Abs(g as i64).0 == g);
}

/// Shrinking a frame's size grown by an inset, by the same inset, gives the
/// size back up to rounding: on each axis whose relative parts add up to
/// less than one, the shrunk length is at most the original one and falls
/// short of it by less than one unit divided by one minus the relative
/// part, so by at most one unit where the relative part is at least minus
/// one, and not at all where it is at least zero.
pub proof fn lemma_shrink_undoes_grow_relative(f: FrameView, inset: Sides<Rel<Abs>>)
    requires
        spec_can_grow(f, inset),
        inset.spec_sum_by_axis().x.rel.0 < RATIO_ONE,
        inset.spec_sum_by_axis().y.rel.0 < RATIO_ONE,
        spec_can_shrink(spec_grown_size(f.size, inset), inset),
    ensures
        ({
            let summed = inset.spec_sum_by_axis();
            let back = spec_shrink(spec_grown_size(f.size, inset), inset);
            &&& back.x.0 <= f.size.x.0
            &&& (f.size.x.0 - back.x.0) * RATIO_ONE < RATIO_ONE - summed.x.rel.0
            &&& summed.x.rel.0 >= -RATIO_ONE ==> f.size.x.0 - back.x.0 <= 1
            &&& summed.x.rel.0 >= 0 ==> back.x == f.size.x
            &&& back.y.0 <= f.size.y.0
            &&& (f.size.y.0 - back.y.0) * RATIO_ONE < RATIO_ONE - summed.y.rel.0
            &&& summed.y.rel.0 >= -RATIO_ONE ==> f.size.y.0 - back.y.0 <= 1
            &&& summed.y.rel.0 >= 0 ==> back.y == f.size.y
        }),
{
    let summed = inset.spec_sum_by_axis();
    lemma_shrink_grown_len(f.size.x.0 as int, summed.x);
    lemma_shrink_grown_len(f.size.y.0 as int, summed.y);
}

impl PadElem {
    /// The padding element the arguments give: each side takes its own
    /// value, else the one for its axis, else the one for all sides (by name
    /// before the positional one), else no padding.
    pub open spec fn spec_construct(args: PadArgs) -> PadElem {
        let all = spec_first(args.rest, args.all);
        let x = spec_first(args.x, all);
        let y = spec_first(args.y, all);
        PadElem {
            left: spec_or_zero(spec_first(args.left, x)),
            top: spec_or_zero(spec_first(args.top, y)),
            right: spec_or_zero(spec_first(args.right, x)),
            bottom: spec_or_zero(spec_first(args.bottom, y)),
            body: args.body,
        }
    }

    /// Construct a padding element from its arguments.
    pub fn construct(args: PadArgs) -> (e: Self)
        ensures
            e == PadElem::spec_construct(args),
    {
        let all = first(args.rest, args.all);
        let x = first(args.x, all);
        let y = first(args.y, all);
        PadElem {
            left: or_zero(first(args.left, x)),
            top: or_zero(first(args.top, y)),
            right: or_zero(first(args.right, x)),
            bottom: or_zero(first(args.bottom, y)),
            body: args.body,
        }
    }
}

/// Whether a size can be shrunk by an inset relative to the size itself.
pub open spec fn spec_can_shrink(size: Size, inset: Sides<Rel<Abs>>) -> bool {
    let summed = inset.spec_sum_by_axis();
    &&& inset.spec_summable()
    &&& summed.spec_resolvable(size)
    &&& in_range(size.x.0 - summed.x.spec_relative_to(size.x))
    &&& in_range(size.y.0 - summed.y.spec_relative_to(size.y))
}

/// A size shrunk by an inset relative to the size itself.
pub open spec fn spec_shrink(size: Size, inset: Sides<Rel<Abs>>) -> Size {
    let summed = inset.spec_sum_by_axis();
    Axes {
        x: Abs((size.x.0 - summed.x.spec_relative_to(size.x)) as i64),
        y: Abs((size.y.0 - summed.y.spec_relative_to(size.y)) as i64),
    }
}

/// Shrink a region size by an inset relative to the size itself.
pub fn shrink(size: Size, inset: &Sides<Rel<Abs>>) -> (r: Size)
    requires
        spec_can_shrink(size, *inset),
    ensures
        r == spec_shrink(size, *inset),
{
    size.minus(inset.sum_by_axis().relative_to(size))
}

/// Whether a length can be shrunk by an inset relative to the length itself.
pub open spec fn spec_can_shrink_len(v: Abs, inset: Rel<Abs>) -> bool {
    &&& in_range(spec_scale(inset.rel.0 as int, v.0 as int))
    &&& in_range(inset.spec_relative_to(v))
    &&& in_range(v.0 - inset.spec_relative_to(v))
}

/// A length shrunk by an inset relative to the length itself.
pub open spec fn spec_shrink_len(v: Abs, inset: Rel<Abs>) -> Abs {
    Abs((v.0 - inset.spec_relative_to(v)) as i64)
}

/// A length shrunk by an inset relative to the length itself.
fn shrink_len(v: Abs, inset: Rel<Abs>) -> (r: Abs)
    requires
        spec_can_shrink_len(v, inset),
    ensures
        r == spec_shrink_len(v, inset),
{
    v.minus(inset.relative_to(v))
}

/// Shrink the components of possibly multiple regions by an inset relative
/// to the regions themselves: the size, the full height, every height of
/// the backlog and the last height.
pub fn shrink_multiple(
    size: &mut Size,
    full: &mut Abs,
    backlog: &mut Vec<Abs>,
    last: &mut Option<Abs>,
    inset: &Sides<Rel<Abs>>,
)
    requires
        spec_can_shrink(*old(size), *inset),
        spec_can_shrink_len(*old(full), inset.spec_sum_by_axis().y),
        forall|i: int|
            0 <= i < old(backlog)@.len() ==> spec_can_shrink_len(
                #[trigger] old(backlog)@[i],
                inset.spec_sum_by_axis().y,
            ),
        *old(last) matches Some(v) ==> spec_can_shrink_len(v, inset.spec_sum_by_axis().y),
    ensures
        *final(size) == spec_shrink(*old(size), *inset),
        *final(full) == spec_shrink_len(*old(full), inset.spec_sum_by_axis().y),
        final(backlog)@.len() == old(backlog)@.len(),
        forall|i: int|
            0 <= i < old(backlog)@.len() ==> #[trigger] final(backlog)@[i] == spec_shrink_len(
                old(backlog)@[i],
                inset.spec_sum_by_axis().y,
            ),
        *final(last) == match *old(last) {
            Some(v) => Some(spec_shrink_len(v, inset.spec_sum_by_axis().y)),
            None => None,
        },
{
    let summed = inset.sum_by_axis();
    *size = size.minus(summed.relative_to(*size));
    *full = shrink_len(*full, summed.y);
    let ghost before = backlog@;
    let mut i: usize = 0;
    while i < backlog.len()
        invariant
            backlog@.len() == before.len(),
            summed == inset.spec_sum_by_axis(),
            forall|k: int|
                0 <= k < before.len() ==> spec_can_shrink_len(#[trigger] before[k], summed.y),
            forall|k: int|
                0 <= k < i ==> #[trigger] backlog@[k] == spec_shrink_len(before[k], summed.y),
            forall|k: int| i <= k < before.len() ==> #[trigger] backlog@[k] == before[k],
        decreases before.len() - i,
    {
        let v = backlog[i];
        backlog.set(i, shrink_len(v, summed.y));
        i += 1;
    }
    *last = match *last {
        Some(v) => Some(shrink_len(v, summed.y)),
        None => None,
    };
}

/// The grown length `(s + abs) / (1 - rel)`, rounded down, for a length `s`
/// and a summed inset.
pub open spec fn spec_grown(s: int, p: Rel<Abs>) -> int {
    (s + p.abs.0) * (RATIO_ONE as int) / ((RATIO_ONE as int) - p.rel.0)
}

/// Whether a frame can be grown by an inset.
pub open spec fn spec_can_grow(f: FrameView, inset: Sides<Rel<Abs>>) -> bool {
    let summed = inset.spec_sum_by_axis();
    let padded = spec_grown_size(f.size, inset);
    &&& inset.spec_summable()
    &&& summed.x.rel.0 != RATIO_ONE
    &&& summed.y.rel.0 != RATIO_ONE
    &&& in_range(f.size.x.0 + summed.x.abs.0)
    &&& in_range(f.size.y.0 + summed.y.abs.0)
    &&& in_range(spec_grown(f.size.x.0 as int, summed.x))
    &&& in_range(spec_grown(f.size.y.0 as int, summed.y))
    &&& inset.spec_resolvable(padded)
    &&& spec_can_translate(FrameView { size: padded, ..f }, spec_grow_offset(f.size, inset))
}

/// The size a frame grows to: each side such that shrinking it by the inset
/// gives the frame's size again, up to rounding.
pub open spec fn spec_grown_size(size: Size, inset: Sides<Rel<Abs>>) -> Size {
    let summed = inset.spec_sum_by_axis();
    Axes {
        x: Abs(spec_grown(size.x.0 as int, summed.x) as i64),
        y: Abs(spec_grown(size.y.0 as int, summed.y) as i64),
    }
}

/// The offset by which a grown frame's contents move inwards.
pub open spec fn spec_grow_offset(size: Size, inset: Sides<Rel<Abs>>) -> Point {
    let padded = spec_grown_size(size, inset);
    Point {
        x: Abs(inset.left.spec_relative_to(padded.x) as i64),
        y: Abs(inset.top.spec_relative_to(padded.y) as i64),
    }
}

/// The grown length, computed in wide integers.
fn grown(s: Abs, p: Rel<Abs>) -> (r: Abs)
    requires
        in_range(s.0 + p.abs.0),
        p.rel.0 != RATIO_ONE,
        in_range(spec_grown(s.0 as int, p)),
    ensures
        r.0 == spec_grown(s.0 as int, p),
{
    let num: i128 = (s.0 as i128 + p.abs.0 as i128) * (RATIO_ONE as i128);
    let den: i128 = RATIO_ONE as i128 - p.rel.0 as i128;
    let q = num.checked_div_euclid(den).unwrap();
    Abs(q as i64)
}

/// Grow a frame's size by an inset relative to the grown size, and move its
/// contents inwards by the left and top inset. This is the inverse operation
/// to `shrink()`.
pub fn grow(frame: &mut Frame, inset: &Sides<Rel<Abs>>)
    requires
        spec_can_grow(old(frame)@, *inset),
    ensures
        final(frame)@ == spec_translate(
            FrameView { size: spec_grown_size(old(frame)@.size, *inset), ..old(frame)@ },
            spec_grow_offset(old(frame)@.size, *inset),
        ),
{
    let summed = inset.sum_by_axis();
    let size = frame.size();
    let padded = Axes { x: grown(size.x, summed.x), y: grown(size.y, summed.y) };
    let resolved = inset.relative_to(padded);
    let offset = Point::new(resolved.left, resolved.top);
    frame.set_size(padded);
    frame.translate(offset);
}

/// Growing a size by an inset without relative parts and shrinking it by the
/// same inset gives the size back.
pub proof fn lemma_shrink_undoes_grow(f: FrameView, inset: Sides<Rel<Abs>>)
    requires
        spec_can_grow(f, inset),
        inset.left.rel.0 == 0,
        inset.top.rel.0 == 0,
        inset.right.rel.0 == 0,
        inset.bottom.rel.0 == 0,
    ensures
        spec_can_shrink(spec_grown_size(f.size, inset), inset),
        spec_shrink(spec_grown_size(f.size, inset), inset) == f.size,
{
    let one = RATIO_ONE as int;
    assert forall|a: int| #![trigger a * one / one] a * one / one == a by {
        assert(a * one / one == a) by (nonlinear_arith)
            requires
                one > 0,
        ;
    }
    assert forall|a: int| #![trigger spec_scale(0, a)] spec_scale(0, a) == 0 by {
        assert(0 * a == 0) by (nonlinear_arith);
    }
    let summed = inset.spec_sum_by_axis();
    assert(spec_grown(f.size.x.0 as int, summed.x) == f.size.x.0 + summed.x.abs.0);
    assert(spec_grown(f.size.y.0 as int, summed.y) == f.size.y.0 + summed.y.abs.0);
}


impl PadElem {
    /// The padding of the sides, resolved at the font size.
    pub open spec fn spec_padding(self, font_size: Abs) -> Sides<Rel<Abs>> {
        Sides {
            left: self.left.spec_resolve(font_size),
            top: self.top.spec_resolve(font_size),
            right: self.right.spec_resolve(font_size),
            bottom: self.bottom.spec_resolve(font_size),
        }
    }

    /// The padding of the sides, resolved at the font size.
    pub fn padding(&self, font_size: Abs) -> (r: Sides<Rel<Abs>>)
        requires
            self.left.abs.spec_at_fits(font_size),
            self.top.abs.spec_at_fits(font_size),
            self.right.abs.spec_at_fits(font_size),
            self.bottom.abs.spec_at_fits(font_size),
        ensures
            r == self.spec_padding(font_size),
    {
        Sides {
            left: self.left.resolve(font_size),
            top: self.top.resolve(font_size),
            right: self.right.resolve(font_size),
            bottom: self.bottom.resolve(font_size),
        }
    }
}

/// The regions with the padding taken off every size.
pub open spec fn spec_padded_pod(regions: RegionsView, padding: Sides<Rel<Abs>>) -> RegionsView {
    let dy = padding.spec_sum_by_axis().y;
    RegionsView {
        size: spec_shrink(regions.size, padding),
        expand: regions.expand,
        full: spec_shrink_len(regions.full, dy),
        backlog: regions.backlog.map_values(|h: Abs| spec_shrink_len(h, dy)),
        last: match regions.last {
            Some(h) => Some(spec_shrink_len(h, dy)),
            None => None,
        },
    }
}

/// Whether taking the padding off the regions stays in the range of
/// lengths.
pub open spec fn spec_padded_pod_fits(regions: RegionsView, padding: Sides<Rel<Abs>>) -> bool {
    let dy = padding.spec_sum_by_axis().y;
    &&& spec_can_shrink(regions.size, padding)
    &&& spec_can_shrink_len(regions.full, dy)
    &&& forall|i: int| 0 <= i < regions.backlog.len() ==> spec_can_shrink_len(#[trigger] regions.backlog[i], dy)
    &&& (regions.last matches Some(h) ==> spec_can_shrink_len(h, dy))
}

/// The regions for the padded body: every size shrunk by the padding
/// relative to the size itself, with the backlog's heights written into
/// `backlog`.
pub fn pad_pod<'v>(regions: &Regions, padding: &Sides<Rel<Abs>>, backlog: &'v mut Vec<Abs>) -> (r: Regions<'v>)
    requires
        spec_padded_pod_fits(regions@, *padding),
    ensures
        r@ == spec_padded_pod(regions@, *padding),
        final(backlog)@ == r@.backlog,
{
    backlog.clear();
    let mut i: usize = 0;
    while i < regions.backlog.len()
        invariant
            i <= regions.backlog@.len(),
            backlog@ =~= regions.backlog@.take(i as int),
        decreases regions.backlog@.len() - i,
    {
        backlog.push(regions.backlog[i]);
        i += 1;
    }
    assert(regions.backlog@.take(regions.backlog@.len() as int) =~= regions.backlog@);
    let mut size = regions.size;
    let mut full = regions.full;
    let mut last = regions.last;
    shrink_multiple(&mut size, &mut full, backlog, &mut last, padding);
    let shared: &'v Vec<Abs> = backlog;
    let r = Regions { size, full, backlog: shared.as_slice(), last, expand: regions.expand };
    assert(r@.backlog =~= spec_padded_pod(regions@, *padding).backlog);
    r
}

/// The frames of the padded body, each grown by the padding.
pub fn pad_fragment(fragment: Vec<Frame>, padding: &Sides<Rel<Abs>>) -> (r: Vec<Frame>)
    requires
        forall|i: int| 0 <= i < fragment@.len() ==> spec_can_grow(#[trigger] fragment@[i]@, *padding),
    ensures
        r@.len() == fragment@.len(),
        forall|i: int|
            0 <= i < r@.len() ==> #[trigger] r@[i]@ == spec_translate(
                FrameView { size: spec_grown_size(fragment@[i]@.size, *padding), ..fragment@[i]@ },
                spec_grow_offset(fragment@[i]@.size, *padding),
            ),
{
    let ghost frames = fragment@;
    let n = fragment.len();
    let mut rest = fragment;
    let mut out: Vec<Frame> = Vec::new();
    let mut i: usize = 0;
    while i < n
        invariant
            i <= n,
            n == frames.len(),
            rest@ == frames.subrange(i as int, n as int),
            out@.len() == i,
            forall|k: int| 0 <= k < n ==> spec_can_grow(#[trigger] frames[k]@, *padding),
            forall|k: int|
                0 <= k < i ==> #[trigger] out@[k]@ == spec_translate(
                    FrameView { size: spec_grown_size(frames[k]@.size, *padding), ..frames[k]@ },
                    spec_grow_offset(frames[k]@.size, *padding),
                ),
        decreases n - i,
    {
        let mut frame = rest.remove(0);
        assert(frame == frames[i as int]);
        grow(&mut frame, padding);
        out.push(frame);
        proof {
            assert(rest@ =~= frames.subrange(i + 1, n as int));
        }
        i += 1;
    }
    out
}

} // verus!
