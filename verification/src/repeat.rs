//! Repeating content to fill the available space.

use vstd::prelude::*;

use crate::align::FixedAlignment;
use crate::content::Content;
use crate::geom::{in_range, Abs, Em, Length};

verus! {

/// Repeats content to the available space.
#[derive(Clone, Copy, PartialEq, Eq, Structural, Hash, Debug)]
pub struct RepeatElem {
    /// The content to repeat.
    pub body: Content,
    /// The gap between each instance of the body.
    pub gap: Length,
    /// Whether to increase the gap between instances to completely fill the
    /// available space.
    pub justify: bool,
}

impl RepeatElem {
    /// Repeated content with no gap, justified.
    pub fn new(body: Content) -> (e: Self)
        ensures
            e == (RepeatElem { body, gap: Length { abs: Abs(0), em: Em(0) }, justify: true }),
    {
        RepeatElem { body, gap: Length::zero(), justify: true }
    }
}


/// How many times a piece of width `width` fits into `fill` with `gap`
/// between two pieces, and the space that is left: none when the piece has
/// no width or the space is too short for even the gaps.
pub open spec fn spec_repeat_fit(fill: Abs, width: Abs, gap: Abs) -> (int, int) {
    let x = fill.0 + gap.0;
    let d = width.0 + gap.0;
    if width.0 <= 0 || x < 0 {
        (0, 0)
    } else {
        (x / d, x % d)
    }
}

/// The gap between the pieces: with justification, the space that is left
/// is spread over the gaps, rounded down.
pub open spec fn spec_repeat_gap(fill: Abs, width: Abs, gap: Abs, justify: bool) -> int {
    let (count, rem) = spec_repeat_fit(fill, width, gap);
    if justify && count > 1 {
        gap.0 + rem / (count - 1)
    } else {
        gap.0 as int
    }
}

/// Where the first piece goes: a single piece, or pieces that are not
/// justified, are aligned in the space that is left.
pub open spec fn spec_repeat_start(fill: Abs, width: Abs, gap: Abs, justify: bool, align: FixedAlignment) -> int {
    let (count, rem) = spec_repeat_fit(fill, width, gap);
    if count == 1 || !justify {
        align.spec_position(Abs(rem as i64))
    } else {
        0
    }
}

/// The number of pieces that are placed: all that fit, but at most a
/// thousand.
pub open spec fn spec_repeat_pieces(fill: Abs, width: Abs, gap: Abs) -> int {
    let (count, _) = spec_repeat_fit(fill, width, gap);
    if count > 1000 {
        1000
    } else {
        count
    }
}

/// The horizontal offsets of the pieces: one piece after the other, each
/// followed by the gap.
pub open spec fn spec_repeat_offsets(
    fill: Abs,
    width: Abs,
    gap: Abs,
    justify: bool,
    align: FixedAlignment,
) -> Seq<Abs> {
    let start = spec_repeat_start(fill, width, gap, justify, align);
    let step = width.0 + spec_repeat_gap(fill, width, gap, justify);
    Seq::new(spec_repeat_pieces(fill, width, gap) as nat, |i: int| Abs((start + i * step) as i64))
}

/// Whether computing the offsets of the pieces stays in the range of
/// lengths.
pub open spec fn spec_repeat_fits(fill: Abs, width: Abs, gap: Abs, justify: bool, align: FixedAlignment) -> bool {
    let start = spec_repeat_start(fill, width, gap, justify, align);
    let step = width.0 + spec_repeat_gap(fill, width, gap, justify);
    &&& in_range(fill.0 + gap.0)
    &&& in_range(width.0 + gap.0)
    &&& in_range(spec_repeat_gap(fill, width, gap, justify))
    &&& in_range(step)
    &&& forall|i: int| 0 <= i <= spec_repeat_pieces(fill, width, gap) ==> in_range(#[trigger] (start + i * step))
}

/// The horizontal offsets at which a piece of width `width` is repeated to
/// fill `fill`, with `gap` between two pieces, justified to fill the space
/// completely or aligned in it. A piece with no width is not repeated.
pub fn repeat_offsets(fill: Abs, width: Abs, gap: Abs, justify: bool, align: FixedAlignment) -> (r: Vec<Abs>)
    requires
        width.0 <= 0 || width.0 + gap.0 > 0,
        spec_repeat_fits(fill, width, gap, justify, align),
    ensures
        r@ == spec_repeat_offsets(fill, width, gap, justify, align),
{
    let mut out: Vec<Abs> = Vec::new();
    if width.0 <= 0 {
        assert(out@ =~= spec_repeat_offsets(fill, width, gap, justify, align));
        return out;
    }
    let x = fill.plus(gap);
    let d = width.plus(gap);
    if x.0 < 0 {
        assert(out@ =~= spec_repeat_offsets(fill, width, gap, justify, align));
        return out;
    }
    let count: i64 = x.0 / d.0;
    let rem = Abs(x.0 % d.0);
    let mut g = gap;
    if justify && count > 1 {
        g = gap.plus(Abs(rem.0 / (count - 1)));
    }
    let mut offset = Abs::zero();
    if count == 1 || !justify {
        offset = align.position(rem);
    }
    let n: i64 = if count > 1000 {
        1000
    } else {
        count
    };
    let step = width.plus(g);
    let ghost start = offset.0 as int;
    let mut i: i64 = 0;
    assert(in_range(start + 0 * step.0));
    while i < n
        invariant
            0 <= i <= n,
            n == spec_repeat_pieces(fill, width, gap),
            start == spec_repeat_start(fill, width, gap, justify, align),
            step.0 == width.0 + spec_repeat_gap(fill, width, gap, justify),
            spec_repeat_fits(fill, width, gap, justify, align),
            offset.0 == start + i * step.0,
            out@ =~= spec_repeat_offsets(fill, width, gap, justify, align).subrange(0, i as int),
        decreases n - i,
    {
        out.push(offset);
        assert(in_range(start + (i + 1) * step.0));
        assert(start + (i + 1) * step.0 == start + i * step.0 + step.0) by (nonlinear_arith);
        offset = offset.plus(step);
        i += 1;
    }
    assert(out@ =~= spec_repeat_offsets(fill, width, gap, justify, align));
    out
}

} // verus!
