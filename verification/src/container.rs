//! Sizing of tracks and containers.

use vstd::prelude::*;

use crate::content::{Callback, Content, Label, Path, Span};
use crate::corners::Corners;
use crate::frame::{
    spec_draws, spec_outset_fits, spec_outset_pos, spec_outset_size, spec_shape_items, spec_translate,
    spec_wrapped, Frame, FrameKind, FrameView, GroupItem,
};
use crate::geom::{in_range, spec_scale, Abs, Axes, Fr, Length, Rel, Sides, Size, Smart};
use crate::visualize::{Paint, Shape, Stroke};
use smallvec::SmallVec;
use crate::pad::{
    grow, spec_can_grow, spec_grow_offset, spec_grown_size, shrink, shrink_multiple, spec_can_shrink, spec_can_shrink_len, spec_shrink, spec_shrink_len,
};
use crate::regions::{Region, Regions, RegionsView};

verus! {

/// Defines how to size something along an axis.
#[derive(Clone, Copy, PartialEq, Eq, Structural, Hash, Debug)]
pub enum Sizing {
    /// A track that fits its item's contents.
    Auto,
    /// A size specified in absolute terms and relative to the parent's size.
    Rel(Rel<Length>),
    /// A size specified as a fraction of the remaining free space in the
    /// parent.
    Fr(Fr),
}

impl Sizing {
    /// Whether this is an automatic sizing.
    pub fn is_auto(self) -> (r: bool)
        ensures
            r == (self is Auto),
    {
        match self {
            Sizing::Auto => true,
            _ => false,
        }
    }

    /// Whether this is fractional sizing.
    pub fn is_fractional(self) -> (r: bool)
        ensures
            r == (self is Fr),
    {
        match self {
            Sizing::Fr(_) => true,
            _ => false,
        }
    }

    /// The default sizing, which is automatic.
    pub fn default() -> (r: Sizing)
        ensures
            r == Sizing::Auto,
    {
        Sizing::Auto
    }
}


impl From<Smart<Rel<Length>>> for Sizing {
    /// The sizing of an automatic or relative size.
    fn from(smart: Smart<Rel<Length>>) -> (r: Self) {
        match smart {
            Smart::Auto => Sizing::Auto,
            Smart::Custom(rel) => Sizing::Rel(rel),
        }
    }
}

impl vstd::std_specs::convert::FromSpecImpl<Smart<Rel<Length>>> for Sizing {
    open spec fn obeys_from_spec() -> bool {
        true
    }

    open spec fn from_spec(smart: Smart<Rel<Length>>) -> Self {
        match smart {
            Smart::Auto => Sizing::Auto,
            Smart::Custom(rel) => Sizing::Rel(rel),
        }
    }
}

/// The extent a sizing gives along an axis with the given base extent: the
/// whole base for automatic and fractional sizing (fractions were already
/// factored into the base), else the relative size resolved against it.
pub open spec fn spec_sizing_extent(s: Sizing, font_size: Abs, base: Abs) -> int {
    match s {
        Sizing::Rel(rel) => rel.spec_resolve(font_size).spec_relative_to(base),
        _ => base.0 as int,
    }
}

/// Whether a sizing resolves within the range of lengths.
pub open spec fn spec_sizing_fits(s: Sizing, font_size: Abs, base: Abs) -> bool {
    match s {
        Sizing::Rel(rel) => {
            &&& rel.abs.spec_at_fits(font_size)
            &&& in_range(spec_scale(rel.rel.0 as int, base.0 as int))
            &&& in_range(rel.spec_resolve(font_size).spec_relative_to(base))
        },
        _ => true,
    }
}

/// The extent a sizing gives along an axis.
fn sizing_extent(s: &Sizing, font_size: Abs, base: Abs) -> (r: Abs)
    requires
        spec_sizing_fits(*s, font_size, base),
    ensures
        r.0 == spec_sizing_extent(*s, font_size, base),
{
    match s {
        Sizing::Rel(rel) => rel.resolve(font_size).relative_to(base),
        _ => base,
    }
}

/// The size of the pod of an unbreakable container: the container's size,
/// less the inset if there is one.
pub open spec fn spec_pod_size(
    width: Sizing,
    height: Sizing,
    inset: Sides<Rel<Abs>>,
    font_size: Abs,
    base: Size,
) -> Size {
    let size = Axes {
        x: Abs(spec_sizing_extent(width, font_size, base.x) as i64),
        y: Abs(spec_sizing_extent(height, font_size, base.y) as i64),
    };
    if inset.spec_is_zero() {
        size
    } else {
        spec_shrink(size, inset)
    }
}

/// Builds the pod region for an unbreakable sized container: the container's
/// size less its inset, expanding along the axes whose size is set.
pub fn unbreakable_pod(
    width: &Sizing,
    height: &Sizing,
    inset: &Sides<Rel<Abs>>,
    font_size: Abs,
    base: Size,
) -> (r: Region)
    requires
        spec_sizing_fits(*width, font_size, base.x),
        spec_sizing_fits(*height, font_size, base.y),
        !inset.spec_is_zero() ==> spec_can_shrink(
            Axes {
                x: Abs(spec_sizing_extent(*width, font_size, base.x) as i64),
                y: Abs(spec_sizing_extent(*height, font_size, base.y) as i64),
            },
            *inset,
        ),
    ensures
        r.size == spec_pod_size(*width, *height, *inset, font_size, base),
        r.expand == (Axes { x: !(*width is Auto), y: !(*height is Auto) }),
{
    let mut size = Axes::new(
        sizing_extent(width, font_size, base.x),
        sizing_extent(height, font_size, base.y),
    );
    if !inset.is_zero() {
        size = shrink(size, inset);
    }
    let expand = Axes::new(!width.is_auto(), !height.is_auto());
    Region::new(size, expand)
}

/// Spacing around and between blocks, relative to the font size and the
/// region, or a fraction of the remaining space.
#[derive(Clone, Copy, PartialEq, Eq, Structural, Hash, Debug)]
pub enum Spacing {
    /// Spacing specified in absolute terms and relative to the parent's size.
    Rel(Rel<Length>),
    /// Spacing specified as a fraction of the remaining free space in the
    /// parent.
    Fr(Fr),
}

/// Sides that are all unset.
pub open spec fn unset_sides<T>() -> Sides<Option<T>> {
    Sides { left: None, top: None, right: None, bottom: None }
}

/// Corners that are all unset.
pub open spec fn unset_corners<T>() -> Corners<Option<T>> {
    Corners { top_left: None, top_right: None, bottom_right: None, bottom_left: None }
}

/// An inline-level container that sizes content.
#[derive(Clone, Copy, PartialEq, Eq, Debug)]
pub struct BoxElem {
    /// The width of the box.
    pub width: Sizing,
    /// The height of the box.
    pub height: Smart<Rel<Length>>,
    /// An amount to shift the box's baseline by.
    pub baseline: Rel<Length>,
    /// The box's background color.
    pub fill: Option<Paint>,
    /// The box's border color.
    pub stroke: Sides<Option<Option<Stroke>>>,
    /// How much to round the box's corners.
    pub radius: Corners<Option<Rel<Length>>>,
    /// How much to pad the box's content.
    pub inset: Sides<Option<Rel<Length>>>,
    /// How much to expand the box's size without affecting the layout.
    pub outset: Sides<Option<Rel<Length>>>,
    /// Whether to clip the content inside the box.
    pub clip: bool,
    /// The contents of the box.
    pub body: Option<Content>,
}

impl BoxElem {
    /// A box with every property at its default: automatic size, no
    /// baseline shift, fill, stroke, radius, inset or outset, no clipping
    /// and no body.
    pub fn new() -> (e: Self)
        ensures
            e == (BoxElem {
                width: Sizing::Auto,
                height: Smart::Auto,
                baseline: Rel::spec_zero(),
                fill: None,
                stroke: unset_sides(),
                radius: unset_corners(),
                inset: unset_sides(),
                outset: unset_sides(),
                clip: false,
                body: None,
            }),
    {
        BoxElem {
            width: Sizing::Auto,
            height: Smart::Auto,
            baseline: Rel::zero(),
            fill: None,
            stroke: Sides { left: None, top: None, right: None, bottom: None },
            radius: Corners { top_left: None, top_right: None, bottom_right: None, bottom_left: None },
            inset: Sides { left: None, top: None, right: None, bottom: None },
            outset: Sides { left: None, top: None, right: None, bottom: None },
            clip: false,
            body: None,
        }
    }
}

/// An element that lays out its content inline.
#[derive(Clone, Copy, PartialEq, Eq, Structural, Hash, Debug)]
pub struct InlineElem {
    /// The callback that lays out the content.
    pub body: Callback,
}

impl InlineElem {
    /// Create an inline-level item with a custom layouter.
    pub fn layouter(callback: Callback) -> (e: Self)
        ensures
            e.body == callback,
    {
        InlineElem { body: callback }
    }
}

/// Layouted items suitable for placing in a paragraph.
#[derive(Debug)]
pub enum InlineItem {
    /// Absolute spacing between other items, and whether it is weak.
    Space(Abs, bool),
    /// Layouted inline-level content.
    Frame(Frame),
}

/// The contents of a block.
#[derive(Clone, Copy, PartialEq, Eq, Structural, Hash, Debug)]
pub enum BlockBody {
    /// The block contains normal content.
    Content(Content),
    /// The block contains a layout callback that needs access to just one
    /// base region.
    SingleLayouter(Callback),
    /// The block contains a layout callback that needs access to the exact
    /// regions.
    MultiLayouter(Callback),
}

/// A block-level container.
#[derive(Clone, Copy, PartialEq, Eq, Debug)]
pub struct BlockElem {
    /// The block's width.
    pub width: Smart<Rel<Length>>,
    /// The block's height.
    pub height: Sizing,
    /// Whether the block can be broken and continue on the next page.
    pub breakable: bool,
    /// The block's background color.
    pub fill: Option<Paint>,
    /// The block's border color.
    pub stroke: Sides<Option<Option<Stroke>>>,
    /// How much to round the block's corners.
    pub radius: Corners<Option<Rel<Length>>>,
    /// How much to pad the block's content.
    pub inset: Sides<Option<Rel<Length>>>,
    /// How much to expand the block's size without affecting the layout.
    pub outset: Sides<Option<Rel<Length>>>,
    /// The spacing between this block and its predecessor.
    pub above: Smart<Spacing>,
    /// The spacing between this block and its successor.
    pub below: Smart<Spacing>,
    /// Whether to clip the content inside the block.
    pub clip: bool,
    /// Whether this block must stick to the following one.
    pub sticky: bool,
    /// The contents of the block.
    pub body: Option<BlockBody>,
}

impl BlockElem {
    /// A block with every property at its default: automatic size,
    /// breakable, without fill, stroke, radius, inset, outset or clipping,
    /// automatic spacing, not sticky and without body.
    pub open spec fn spec_new() -> BlockElem {
        BlockElem {
            width: Smart::Auto,
            height: Sizing::Auto,
            breakable: true,
            fill: None,
            stroke: unset_sides(),
            radius: unset_corners(),
            inset: unset_sides(),
            outset: unset_sides(),
            above: Smart::Auto,
            below: Smart::Auto,
            clip: false,
            sticky: false,
            body: None,
        }
    }

    /// A block with every property at its default.
    pub fn new() -> (e: Self)
        ensures
            e == BlockElem::spec_new(),
    {
        BlockElem {
            width: Smart::Auto,
            height: Sizing::Auto,
            breakable: true,
            fill: None,
            stroke: Sides { left: None, top: None, right: None, bottom: None },
            radius: Corners { top_left: None, top_right: None, bottom_right: None, bottom_left: None },
            inset: Sides { left: None, top: None, right: None, bottom: None },
            outset: Sides { left: None, top: None, right: None, bottom: None },
            above: Smart::Auto,
            below: Smart::Auto,
            clip: false,
            sticky: false,
            body: None,
        }
    }

    /// The block with the given breakability.
    pub fn with_breakable(self, breakable: bool) -> (e: Self)
        ensures
            e == (BlockElem { breakable, ..self }),
    {
        BlockElem { breakable, ..self }
    }

    /// The block with the given body.
    pub fn with_body(self, body: Option<BlockBody>) -> (e: Self)
        ensures
            e == (BlockElem { body, ..self }),
    {
        BlockElem { body, ..self }
    }

    /// Create a block with a custom single-region layouter. Such a block is
    /// not breakable.
    pub fn single_layouter(callback: Callback) -> (e: Self)
        ensures
            e == (BlockElem {
                breakable: false,
                body: Some(BlockBody::SingleLayouter(callback)),
                ..BlockElem::spec_new()
            }),
    {
        BlockElem::new().with_breakable(false).with_body(Some(BlockBody::SingleLayouter(callback)))
    }

    /// Create a block with a custom multi-region layouter.
    pub fn multi_layouter(callback: Callback) -> (e: Self)
        ensures
            e == (BlockElem {
                body: Some(BlockBody::MultiLayouter(callback)),
                ..BlockElem::spec_new()
            }),
    {
        BlockElem::new().with_body(Some(BlockBody::MultiLayouter(callback)))
    }
}


/// A height limited to the range from zero to `remaining`.
pub open spec fn spec_clamp_height(h: Abs, remaining: int) -> int {
    if h.0 < 0 {
        0
    } else if h.0 > remaining {
        remaining
    } else {
        h.0 as int
    }
}

/// Whether advancing the regions may still make room.
pub open spec fn spec_progress_flag(r: RegionsView) -> int {
    if r.spec_may_progress() {
        1
    } else {
        0
    }
}

/// The heights that `remaining` is spread over when filling the regions one
/// after the other, each as far as it goes, with what is left over at the
/// end: the regions are filled until nothing is left, no break is
/// permitted, or a last region that repeats has no room.
pub open spec fn spec_distribute_from(regions: RegionsView, remaining: int) -> (Seq<Abs>, int)
    decreases regions.backlog.len(), spec_progress_flag(regions), remaining,
    when remaining >= 0
{
    let limited = spec_clamp_height(regions.size.y, remaining);
    let rem = remaining - limited;
    if rem == 0 || !regions.spec_may_break() || (!regions.spec_may_progress() && limited == 0) {
        (seq![Abs(limited as i64)], rem)
    } else {
        let next = spec_distribute_from(regions.spec_next(), rem);
        (seq![Abs(limited as i64)] + next.0, next.1)
    }
}

/// The heights a fixed height is spread over, with what is left over added
/// to the last one.
pub open spec fn spec_distribute(regions: RegionsView, height: int) -> Seq<Abs> {
    let (hs, left) = spec_distribute_from(regions, height);
    if left != 0 {
        hs.update(hs.len() - 1, Abs((hs.last().0 + left) as i64))
    } else {
        hs
    }
}

/// Distribute a fixed height spread over existing regions into the heights
/// of a new first region and a new backlog, in this order.
pub fn distribute(height: Abs, regions: &Regions) -> (r: Vec<Abs>)
    requires
        height.0 >= 0,
    ensures
        r@ == spec_distribute(regions@, height.0 as int),
        r@.len() >= 1,
{
    let ghost r0 = regions@;
    let mut regions = *regions;
    let mut remaining = height;
    let mut buf: Vec<Abs> = Vec::new();
    let ghost mut before: int = height.0 as int;
    loop
        invariant_except_break
            0 <= remaining.0 <= height.0,
            spec_distribute_from(r0, height.0 as int) == (buf@ + spec_distribute_from(
                regions@,
                remaining.0 as int,
            ).0, spec_distribute_from(regions@, remaining.0 as int).1),
        ensures
            buf@.len() >= 1,
            spec_distribute_from(r0, height.0 as int) == (buf@, remaining.0 as int),
            0 <= remaining.0,
            buf@.last().0 + remaining.0 <= height.0,
            0 <= buf@.last().0,
        decreases regions@.backlog.len(), spec_progress_flag(regions@), remaining.0,
    {
        let y = regions.size.y;
        let limited = if y.0 < 0 {
            Abs::zero()
        } else if y.0 > remaining.0 {
            remaining
        } else {
            y
        };
        let ghost cur = regions@;
        let ghost rem0 = remaining.0 as int;
        buf.push(limited);
        remaining = remaining.minus(limited);
        if remaining.0 == 0 || !regions.may_break() || (!regions.may_progress() && limited.0 == 0) {
            assert(spec_distribute_from(cur, rem0).0 =~= seq![limited]);
            break;
        }
        regions.next();
        proof {
            let next = spec_distribute_from(regions@, remaining.0 as int);
            assert(spec_distribute_from(cur, rem0) == (seq![limited] + next.0, next.1));
            assert(buf@.drop_last() + (seq![limited] + next.0) =~= buf@ + next.0);
        }
    }
    if remaining.0 != 0 {
        let n = buf.len();
        let l = buf[n - 1];
        buf.set(n - 1, l.plus(remaining));
    }
    assert(buf@ =~= spec_distribute(r0, height.0 as int));
    buf
}


/// A buffer of region heights, held inline while there are at most two.
#[verifier::external_body]
pub struct HeightBuf {
    heights: SmallVec<[Abs; 2]>,
}

/// The heights held, in order.
pub uninterp spec fn heights(b: HeightBuf) -> Seq<Abs>;

/// Calls `SmallVec::new`, which makes an empty small vector.
#[verifier::external_body]
fn heights_new() -> (r: HeightBuf)
    ensures
        heights(r) == Seq::<Abs>::empty(),
{
    HeightBuf { heights: SmallVec::new() }
}

/// Calls `SmallVec::push`, which appends the height.
#[verifier::external_body]
fn heights_push(b: &mut HeightBuf, h: Abs)
    requires
        heights(*old(b)).len() < usize::MAX,
    ensures
        heights(*final(b)) == heights(*old(b)).push(h),
{
    b.heights.push(h)
}

/// Calls `SmallVec::extend_from_slice`, which appends the slice's heights in
/// order.
#[verifier::external_body]
fn heights_extend(b: &mut HeightBuf, s: &[Abs])
    requires
        heights(*old(b)).len() + s@.len() <= usize::MAX,
    ensures
        heights(*final(b)) == heights(*old(b)) + s@,
{
    b.heights.extend_from_slice(s)
}

/// Calls `SmallVec::as_slice`, which lends out the heights in order.
#[verifier::external_body]
fn heights_slice(b: &HeightBuf) -> (r: &[Abs])
    ensures
        r@ == heights(*b),
{
    b.heights.as_slice()
}

impl HeightBuf {
    /// An empty buffer.
    pub fn new() -> (r: Self)
        ensures
            heights(r) == Seq::<Abs>::empty(),
    {
        heights_new()
    }
}

/// The heights of a list of regions with an inset taken off each.
pub open spec fn spec_shrunk_heights(hs: Seq<Abs>, inset: Sides<Rel<Abs>>) -> Seq<Abs> {
    hs.map_values(|h: Abs| spec_shrink_len(h, inset.spec_sum_by_axis().y))
}

/// The first height, the full height, the backlog and the last height of
/// the pod of a breakable container, before its inset is taken off: those
/// of the regions for an automatic or fractional height; for a fixed height,
/// that height spread over the regions, with no last region.
pub open spec fn spec_pod_heights(height: Sizing, font_size: Abs, regions: RegionsView) -> (
    Abs,
    Abs,
    Seq<Abs>,
    Option<Abs>,
) {
    match height {
        Sizing::Rel(rel) => {
            let resolved = rel.spec_resolve(font_size).spec_relative_to(regions.full);
            let hs = spec_distribute(regions, resolved);
            (hs[0], Abs(resolved as i64), hs.subrange(1, hs.len() as int), None)
        },
        _ => (regions.size.y, regions.full, regions.backlog, regions.last),
    }
}

/// The pod regions of a breakable container: its width and the heights,
/// with the inset taken off each, expanding along the axes whose size is
/// set.
pub open spec fn spec_breakable_pod(
    width: Sizing,
    height: Sizing,
    inset: Sides<Rel<Abs>>,
    font_size: Abs,
    regions: RegionsView,
) -> RegionsView {
    let (first, full, backlog, last) = spec_pod_heights(height, font_size, regions);
    let size = Axes { x: Abs(spec_sizing_extent(width, font_size, regions.size.x) as i64), y: first };
    let expand = Axes { x: !(width is Auto), y: !(height is Auto) };
    if inset.spec_is_zero() {
        RegionsView { size, expand, full, backlog, last }
    } else {
        let dy = inset.spec_sum_by_axis().y;
        RegionsView {
            size: spec_shrink(size, inset),
            expand,
            full: spec_shrink_len(full, dy),
            backlog: spec_shrunk_heights(backlog, inset),
            last: match last {
                Some(v) => Some(spec_shrink_len(v, dy)),
                None => None,
            },
        }
    }
}

/// Whether building the pod of a breakable container stays in the range of
/// lengths, and a fixed height is not negative.
pub open spec fn spec_breakable_pod_fits(
    width: Sizing,
    height: Sizing,
    inset: Sides<Rel<Abs>>,
    font_size: Abs,
    regions: RegionsView,
) -> bool {
    let (first, full, backlog, last) = spec_pod_heights(height, font_size, regions);
    let size = Axes { x: Abs(spec_sizing_extent(width, font_size, regions.size.x) as i64), y: first };
    let dy = inset.spec_sum_by_axis().y;
    &&& spec_sizing_fits(width, font_size, regions.size.x)
    &&& spec_sizing_fits(height, font_size, regions.full)
    &&& (height matches Sizing::Rel(rel) ==> rel.spec_resolve(font_size).spec_relative_to(regions.full)
        >= 0)
    &&& (!inset.spec_is_zero() ==> {
        &&& spec_can_shrink(size, inset)
        &&& spec_can_shrink_len(full, dy)
        &&& forall|i: int| 0 <= i < backlog.len() ==> spec_can_shrink_len(#[trigger] backlog[i], dy)
        &&& (last matches Some(v) ==> spec_can_shrink_len(v, dy))
    })
}

/// Whether two frames in a row differ in width.
pub open spec fn spec_widths_differ(frames: Seq<Frame>) -> bool {
    exists|i: int| 0 <= i < frames.len() - 1 && #[trigger] spec_width_changes(frames, i)
}

/// Whether the frame after the one with index `i` has another width.
pub open spec fn spec_width_changes(frames: Seq<Frame>, i: int) -> bool {
    frames[i]@.size.x != frames[i + 1]@.size.x
}

/// The width of the widest frame, or zero without frames.
pub open spec fn spec_widest_frame(frames: Seq<Frame>) -> int
    decreases frames.len(),
{
    if frames.len() == 0 {
        0
    } else {
        let rest = spec_widest_frame(frames.drop_last());
        let w = frames.last()@.size.x.0 as int;
        if frames.len() == 1 || w > rest {
            w
        } else {
            rest
        }
    }
}

/// The number of frames of a block without a body: one, and one more per
/// region of the backlog where the pod expands vertically.
pub open spec fn spec_empty_body_count(pod: RegionsView) -> int {
    if pod.expand.y {
        1 + pod.backlog.len() as int
    } else {
        1
    }
}

/// Whether two frames in a row differ in width.
fn widths_differ(frames: &Vec<Frame>) -> (r: bool)
    ensures
        r == spec_widths_differ(frames@),
{
    let n = frames.len();
    let mut i: usize = 1;
    while i < n
        invariant
            n == frames@.len(),
            1 <= i,
            forall|k: int| 0 <= k < i - 1 && k < n - 1 ==> !#[trigger] spec_width_changes(frames@, k),
        decreases n - i,
    {
        if frames[i - 1].width().0 != frames[i].width().0 {
            assert(spec_width_changes(frames@, i - 1));
            return true;
        }
        i += 1;
    }
    false
}

/// The width of the widest frame, or zero without frames.
fn widest_frame(frames: &Vec<Frame>) -> (r: Abs)
    requires
        in_range(spec_widest_frame(frames@)),
    ensures
        r.0 == spec_widest_frame(frames@),
{
    let n = frames.len();
    let mut widest = Abs::zero();
    let mut i: usize = 0;
    while i < n
        invariant
            n == frames@.len(),
            i <= n,
            widest.0 == spec_widest_frame(frames@.take(i as int)),
        decreases n - i,
    {
        assert(frames@.take(i + 1).drop_last() =~= frames@.take(i as int));
        let w = frames[i].width();
        if i == 0 || w.0 > widest.0 {
            widest = w;
        }
        i += 1;
    }
    assert(frames@.take(n as int) =~= frames@);
    widest
}

/// Lays out the body of a breakable block in its pod regions.
///
/// Without a body, the block gets empty hard frames of zero size, one per
/// region it expands into. Content is laid out by `content`; if the pod does
/// not expand horizontally and the frames come out with different widths,
/// the content is laid out again, expanding to the widest of them. A
/// single-region layouter gets the pod's base region through `single`; a
/// multi-region layouter gets the pod regions through `multi`, expanding
/// where the pod or the outer regions expand.
pub fn layout_block_body<'a, C, S, M>(
    body: Option<BlockBody>,
    pod: Regions<'a>,
    outer_expand: Axes<bool>,
    content: C,
    single: S,
    multi: M,
) -> (r: Vec<Frame>) where
    C: Fn(Content, Regions<'a>) -> Vec<Frame>,
    S: Fn(Callback, Region) -> Frame,
    M: Fn(Callback, Regions<'a>) -> Vec<Frame>,

    requires
        forall|c: Content, p: Regions<'a>| content.requires((c, p)),
        forall|cb: Callback, p: Region| single.requires((cb, p)),
        forall|cb: Callback, p: Regions<'a>| multi.requires((cb, p)),
        forall|c: Content, p: Regions<'a>, f: Vec<Frame>|
            #[trigger] content.ensures((c, p), f) ==> in_range(spec_widest_frame(f@)),
    ensures
        match body {
            None => {
                &&& r@.len() == spec_empty_body_count(pod@)
                &&& forall|i: int|
                    0 <= i < r@.len() ==> (#[trigger] r@[i])@ == (FrameView {
                        size: Axes { x: Abs(0), y: Abs(0) },
                        baseline: None,
                        items: Seq::empty(),
                        kind: FrameKind::Hard,
                    })
            },
            Some(BlockBody::Content(c)) => exists|first: Vec<Frame>|
                #[trigger] content.ensures((c, pod), first) && if !pod.expand.x && spec_widths_differ(
                    first@,
                ) {
                    content.ensures(
                        (
                            c,
                            Regions {
                                size: Axes { x: Abs(spec_widest_frame(first@) as i64), y: pod.size.y },
                                expand: Axes { x: true, y: pod.expand.y },
                                ..pod
                            },
                        ),
                        r,
                    )
                } else {
                    r == first
                },
            Some(BlockBody::SingleLayouter(cb)) => r@.len() == 1 && single.ensures(
                (cb, Region { size: Axes { x: pod.size.x, y: pod.full }, expand: pod.expand }),
                r@[0],
            ),
            Some(BlockBody::MultiLayouter(cb)) => multi.ensures(
                (
                    cb,
                    Regions {
                        expand: Axes {
                            x: pod.expand.x || outer_expand.x,
                            y: pod.expand.y || outer_expand.y,
                        },
                        ..pod
                    },
                ),
                r,
            ),
        },
{
    match body {
        None => {
            let mut frames: Vec<Frame> = Vec::new();
            frames.push(Frame::hard(Axes::new(Abs::zero(), Abs::zero())));
            if pod.expand.y {
                let mut iter = pod;
                while iter.backlog.len() > 0
                    invariant
                        frames@.len() + iter.backlog@.len() == 1 + pod.backlog@.len(),
                        forall|i: int|
                            0 <= i < frames@.len() ==> (#[trigger] frames@[i])@ == (FrameView {
                                size: Axes { x: Abs(0), y: Abs(0) },
                                baseline: None,
                                items: Seq::empty(),
                                kind: FrameKind::Hard,
                            }),
                    decreases iter.backlog@.len(),
                {
                    frames.push(Frame::hard(Axes::new(Abs::zero(), Abs::zero())));
                    iter.next();
                }
            }
            frames
        },
        Some(BlockBody::Content(c)) => {
            let fragment = content(c, pod);
            let differ = widths_differ(&fragment);
            let widest = widest_frame(&fragment);
            if !pod.expand.x && differ {
                let relayout = Regions {
                    size: Axes::new(widest, pod.size.y),
                    expand: Axes::new(true, pod.expand.y),
                    ..pod
                };
                content(c, relayout)
            } else {
                fragment
            }
        },
        Some(BlockBody::SingleLayouter(cb)) => {
            let region = Region::new(pod.base(), pod.expand);
            let frame = single(cb, region);
            let mut frames: Vec<Frame> = Vec::new();
            frames.push(frame);
            frames
        },
        Some(BlockBody::MultiLayouter(cb)) => {
            let expand = Axes::new(pod.expand.x || outer_expand.x, pod.expand.y || outer_expand.y);
            multi(cb, Regions { expand, ..pod })
        },
    }
}

/// Builds the pod regions for a breakable sized container. The heights of
/// the backlog live in `buf`, which starts out empty; for a fixed height it
/// also keeps the first height before the inset is taken off, in front.
pub fn breakable_pod<'a>(
    width: &Sizing,
    height: &Sizing,
    inset: &Sides<Rel<Abs>>,
    font_size: Abs,
    regions: &Regions,
    buf: &'a mut HeightBuf,
) -> (r: Regions<'a>)
    requires
        spec_breakable_pod_fits(*width, *height, *inset, font_size, regions@),
        heights(*old(buf)).len() == 0,
    ensures
        r@ == spec_breakable_pod(*width, *height, *inset, font_size, regions@),
        heights(*final(buf)) == match *height {
            Sizing::Rel(_) => seq![spec_pod_heights(*height, font_size, regions@).0] + r@.backlog,
            _ => r@.backlog,
        },
{
    let ghost hv = spec_pod_heights(*height, font_size, regions@);
    let base = regions.base();
    let mut backlog: Vec<Abs> = Vec::new();
    let (first, full, last, lead) = match height {
        Sizing::Rel(rel) => {
            let resolved = rel.resolve(font_size).relative_to(base.y);
            let hs = distribute(resolved, regions);
            let mut i: usize = 1;
            while i < hs.len()
                invariant
                    1 <= i <= hs@.len(),
                    backlog@ =~= hs@.subrange(1, i as int),
                decreases hs@.len() - i,
            {
                backlog.push(hs[i]);
                i += 1;
            }
            (hs[0], resolved, None, Some(hs[0]))
        },
        _ => {
            let mut i: usize = 0;
            while i < regions.backlog.len()
                invariant
                    i <= regions.backlog@.len(),
                    backlog@ =~= regions.backlog@.subrange(0, i as int),
                decreases regions.backlog@.len() - i,
            {
                backlog.push(regions.backlog[i]);
                i += 1;
            }
            (regions.size.y, regions.full, regions.last, None)
        },
    };
    assert(first == hv.0 && full == hv.1 && backlog@ =~= hv.2 && last == hv.3);
    let mut size = Axes::new(sizing_extent(width, font_size, regions.size.x), first);
    let mut full = full;
    let mut last = last;
    if !inset.is_zero() {
        shrink_multiple(&mut size, &mut full, &mut backlog, &mut last, inset);
        assert(backlog@ =~= spec_shrunk_heights(hv.2, *inset));
    }
    let expand = Axes::new(!width.is_auto(), !height.is_auto());
    match lead {
        Some(f) => heights_push(buf, f),
        None => {},
    }
    heights_extend(buf, backlog.as_slice());
    let shared: &'a HeightBuf = buf;
    let all = heights_slice(shared);
    let start: usize = match lead {
        Some(_) => 1,
        None => 0,
    };
    let tail = &all[start..all.len()];
    assert(tail@ =~= backlog@);
    Regions { size, full, backlog: tail, last, expand }
}


/// How the frames of a block are finished once its body is laid out.
#[derive(Clone, Copy, PartialEq, Eq, Structural, Hash, Debug)]
pub struct BlockFinish {
    /// Whether the block holds content or nothing rather than a layout
    /// callback: its frames are then boundaries for gradients.
    pub explicit: bool,
    /// The inset, resolved.
    pub inset: Sides<Rel<Abs>>,
    /// Whether to clip the contents.
    pub clip: bool,
    /// The outset, resolved.
    pub outset: Sides<Rel<Abs>>,
    /// The block's span.
    pub span: Span,
    /// The block's label.
    pub label: Option<Label>,
}

/// A frame of a block after the steps that depend on nothing but the frame:
/// hard if the block is explicit, sized to the region along the expanded
/// axes, and grown by the inset.
pub open spec fn spec_block_base(f: FrameView, region: Size, expand: Axes<bool>, finish: BlockFinish) -> FrameView {
    let f1 = if finish.explicit {
        FrameView { kind: FrameKind::Hard, ..f }
    } else {
        f
    };
    let f2 = FrameView {
        size: Axes {
            x: if expand.x {
                region.x
            } else {
                f1.size.x
            },
            y: if expand.y {
                region.y
            } else {
                f1.size.y
            },
        },
        ..f1
    };
    if finish.inset.spec_is_zero() {
        f2
    } else {
        spec_translate(
            FrameView { size: spec_grown_size(f2.size, finish.inset), ..f2 },
            spec_grow_offset(f2.size, finish.inset),
        )
    }
}

/// Whether `g` is the frame `k` after clipping, when the block clips: to the
/// path that `clip_path` may give for the frame grown by the outset.
pub open spec fn spec_block_clipped<C: Fn(Size) -> Path>(
    k: Frame,
    clip_path: C,
    finish: BlockFinish,
    g: Frame,
) -> bool {
    if !finish.clip || k@.items.len() == 0 {
        g@ == k@
    } else {
        exists|p: Path|
            clip_path.ensures((spec_outset_size(k@.size, finish.outset),), p) && g@ == spec_wrapped(
                k@,
                GroupItem { clip_path: Some(p), ..GroupItem::spec_new(k) },
            )
    }
}

/// Whether `h` is the frame `g` with the shapes that `styled` may draw for
/// it in the background, when it is decorated.
pub open spec fn spec_block_decorated<F: Fn(Size) -> Vec<Shape>>(
    g: FrameView,
    styled: F,
    decorate: bool,
    finish: BlockFinish,
    h: FrameView,
) -> bool {
    if !decorate {
        h == g
    } else {
        exists|shapes: Seq<Shape>|
            {
                &&& spec_draws(styled, spec_outset_size(g.size, finish.outset), shapes)
                &&& h == (FrameView {
                    items: spec_shape_items(shapes, spec_outset_pos(g.size, finish.outset), finish.span)
                        + g.items,
                    ..g
                })
            }
    }
}

/// The frame `h` with the block's label, if it has one.
pub open spec fn spec_block_labelled(h: Frame, label: Option<Label>) -> FrameView {
    match label {
        Some(l) => spec_wrapped(h@, GroupItem { label: Some(l), ..GroupItem::spec_new(h) }),
        None => h@,
    }
}

/// Whether `r` is the frame `f` of a block finished in a region of size
/// `region`, before it gets the block's label.
pub open spec fn spec_block_finished<C: Fn(Size) -> Path, F: Fn(Size) -> Vec<Shape>>(
    f: FrameView,
    region: Size,
    expand: Axes<bool>,
    finish: BlockFinish,
    decorate: bool,
    clip_path: C,
    styled: F,
    r: FrameView,
) -> bool {
    exists|k: Frame, g: Frame|
        {
            &&& k@ == spec_block_base(f, region, expand, finish)
            &&& spec_block_clipped(k, clip_path, finish, g)
            &&& spec_block_decorated(g@, styled, decorate, finish, r)
        }
}

/// Whether finishing the frame `f` of a block stays in the range of lengths.
pub open spec fn spec_block_finish_fits(f: FrameView, region: Size, expand: Axes<bool>, finish: BlockFinish) -> bool {
    let base = spec_block_base(f, region, expand, finish);
    let f1 = if finish.explicit {
        FrameView { kind: FrameKind::Hard, ..f }
    } else {
        f
    };
    let f2 = FrameView {
        size: Axes {
            x: if expand.x {
                region.x
            } else {
                f1.size.x
            },
            y: if expand.y {
                region.y
            } else {
                f1.size.y
            },
        },
        ..f1
    };
    &&& (!finish.inset.spec_is_zero() ==> spec_can_grow(f2, finish.inset))
    &&& spec_outset_fits(base.size, finish.outset)
}

/// Finish a frame of a block once its body is laid out into a region of
/// size `region`: explicit blocks give hard frames, the frame takes the
/// region's size along the expanded axes, grows by the inset, is clipped if
/// the block clips, and gets the fill and stroke that `styled` draws if
/// `decorate` is set.
pub fn finish_block_frame<C, F>(
    frame: Frame,
    region: Size,
    expand: Axes<bool>,
    finish: &BlockFinish,
    decorate: bool,
    clip_path: C,
    styled: F,
) -> (r: Frame) where C: Fn(Size) -> Path, F: Fn(Size) -> Vec<Shape>
    requires
        spec_block_finish_fits(frame@, region, expand, *finish),
        forall|s: Size| clip_path.requires((s,)),
        forall|s: Size| styled.requires((s,)),
    ensures
        spec_block_finished(frame@, region, expand, *finish, decorate, clip_path, styled, r@),
        r@.size == spec_block_base(frame@, region, expand, *finish).size,
        r@.baseline == spec_block_base(frame@, region, expand, *finish).baseline,
{
    let ghost f = frame@;
    let mut frame = frame;
    if finish.explicit {
        frame.set_kind(FrameKind::Hard);
    }
    frame.set_size(expand.select(region, frame.size()));
    if !finish.inset.is_zero() {
        grow(&mut frame, &finish.inset);
    }
    let ghost k = frame;
    assert(k@ == spec_block_base(f, region, expand, *finish));
    if finish.clip {
        let size = frame.size().plus(finish.outset.relative_to(frame.size()).sum_by_axis());
        let p = clip_path(size);
        assert(size == spec_outset_size(k@.size, finish.outset));
        frame.clip(p);
    }
    let ghost g = frame;
    assert(spec_block_clipped(k, clip_path, *finish, g));
    if decorate {
        frame.fill_and_stroke(styled, &finish.outset, finish.span);
    }
    assert(spec_block_decorated(g@, styled, decorate, *finish, frame@));
    frame
}

/// Whether the first frame of a decorated block is left without fill and
/// stroke: when it is empty and a frame that is not follows.
pub open spec fn spec_skip_first(frames: Seq<Frame>, decorated: bool) -> bool {
    &&& decorated
    &&& frames.len() > 0
    &&& frames[0]@.items.len() == 0
    &&& exists|j: int| 1 <= j < frames.len() && #[trigger] frames[j]@.items.len() != 0
}

/// Whether the frame `r` is the frame `f` of a breakable block, the `i`-th
/// of its fragment, finished: the frames that have a region are finished in
/// it, the others kept, and all get the block's label.
pub open spec fn spec_fragment_frame_finished<C: Fn(Size) -> Path, F: Fn(Size) -> Vec<Shape>>(
    frames: Seq<Frame>,
    i: int,
    pod: RegionsView,
    finish: BlockFinish,
    decorated: bool,
    clip_path: C,
    styled: F,
    r: Frame,
) -> bool {
    exists|m: Frame|
        {
            &&& match pod.spec_item(i) {
                Some(region) => spec_block_finished(
                    frames[i]@,
                    region,
                    pod.expand,
                    finish,
                    decorated && (i > 0 || !spec_skip_first(frames, decorated)),
                    clip_path,
                    styled,
                    m@,
                ),
                None => m@ == frames[i]@,
            }
            &&& r@ == spec_block_labelled(m, finish.label)
        }
}

/// Whether finishing the frames of a breakable block stays in the range of
/// lengths.
pub open spec fn spec_fragment_finish_fits(frames: Seq<Frame>, pod: RegionsView, finish: BlockFinish) -> bool {
    forall|i: int|
        0 <= i < frames.len() ==> match pod.spec_item(i) {
            Some(region) => spec_block_finish_fits(#[trigger] frames[i]@, region, pod.expand, finish),
            None => true,
        }
}

/// Finish the frames of a breakable block once its body is laid out into
/// the pod regions: each frame is finished in its region, with fill and
/// stroke if the block is `decorated`, except for an empty first frame
/// followed by one that is not, and every frame gets the block's label.
pub fn finish_block_frames<C, F>(
    fragment: Vec<Frame>,
    pod: &Regions,
    finish: &BlockFinish,
    decorated: bool,
    clip_path: C,
    styled: F,
) -> (r: Vec<Frame>) where C: Fn(Size) -> Path + Copy, F: Fn(Size) -> Vec<Shape> + Copy
    requires
        spec_fragment_finish_fits(fragment@, pod@, *finish),
        forall|s: Size| clip_path.requires((s,)),
        forall|s: Size| styled.requires((s,)),
    ensures
        r@.len() == fragment@.len(),
        forall|i: int|
            0 <= i < r@.len() ==> spec_fragment_frame_finished(
                fragment@,
                i,
                pod@,
                *finish,
                decorated,
                clip_path,
                styled,
                #[trigger] r@[i],
            ),
{
    let ghost frames = fragment@;
    let n = fragment.len();
    let mut skip_first = false;
    if decorated && n > 0 && fragment[0].is_empty() {
        let mut j: usize = 1;
        while j < n
            invariant_except_break
                1 <= j <= n,
                n == frames.len(),
                fragment@ == frames,
                !skip_first,
                forall|k: int| 1 <= k < j ==> #[trigger] frames[k]@.items.len() == 0,
            ensures
                skip_first ==> exists|k: int| 1 <= k < n && #[trigger] frames[k]@.items.len() != 0,
                !skip_first ==> forall|k: int| 1 <= k < n ==> #[trigger] frames[k]@.items.len() == 0,
            decreases n - j,
        {
            if !fragment[j].is_empty() {
                skip_first = true;
                assert(frames[j as int]@.items.len() != 0);
                break;
            }
            j += 1;
        }
    }
    assert(skip_first == spec_skip_first(frames, decorated));
    let regions = pod.iter(n);
    let mut rest = fragment;
    let mut out: Vec<Frame> = Vec::new();
    let mut i: usize = 0;
    while i < n
        invariant
            i <= n,
            n == frames.len(),
            rest@ == frames.subrange(i as int, n as int),
            out@.len() == i,
            skip_first == spec_skip_first(frames, decorated),
            regions@.len() <= n,
            forall|k: int| 0 <= k < regions@.len() ==> Some(#[trigger] regions@[k]) == pod@.spec_item(k),
            regions@.len() < n ==> pod@.spec_item(regions@.len() as int) is None,
            spec_fragment_finish_fits(frames, pod@, *finish),
            forall|s: Size| clip_path.requires((s,)),
            forall|s: Size| styled.requires((s,)),
            forall|k: int|
                0 <= k < i ==> spec_fragment_frame_finished(
                    frames,
                    k,
                    pod@,
                    *finish,
                    decorated,
                    clip_path,
                    styled,
                    #[trigger] out@[k],
                ),
        decreases n - i,
    {
        let frame = rest.remove(0);
        assert(frame == frames[i as int]);
        let mut m = if i < regions.len() {
            assert(spec_block_finish_fits(frames[i as int]@, regions@[i as int], pod@.expand, *finish));
            finish_block_frame(
                frame,
                regions[i],
                pod.expand,
                finish,
                decorated && (i > 0 || !skip_first),
                clip_path,
                styled,
            )
        } else {
            proof {
                lemma_item_none_after(pod@, regions@.len() as int, i as int);
            }
            frame
        };
        let ghost mg = m;
        let ghost has = i < regions.len();
        match finish.label {
            Some(l) => m.label(l),
            None => {},
        }
        proof {
            assert(m@ == spec_block_labelled(mg, finish.label));
            if has {
                assert(pod@.spec_item(i as int) == Some(regions@[i as int]));
            } else {
                assert(pod@.spec_item(i as int) is None);
            }
        }
        assert(spec_fragment_frame_finished(frames, i as int, pod@, *finish, decorated, clip_path, styled, m));
        out.push(m);
        proof {
            assert(rest@ =~= frames.subrange(i + 1, n as int));
        }
        i += 1;
    }
    out
}

/// Once the regions end, there is no later region either.
proof fn lemma_item_none_after(r: RegionsView, a: int, b: int)
    requires
        0 <= a <= b,
        r.spec_item(a) is None,
    ensures
        r.spec_item(b) is None,
{
}

/// The frame with its baseline shifted up by `shift` resolved relative to
/// its height, unless that is nothing.
pub open spec fn spec_baseline_shifted(f: FrameView, shift: Rel<Abs>) -> FrameView {
    let v = shift.spec_relative_to(f.size.y);
    if v == 0 {
        f
    } else {
        FrameView { baseline: Some(Abs((f.spec_baseline().0 - v) as i64)), ..f }
    }
}

/// Whether finishing the frame of a box stays in the range of lengths.
pub open spec fn spec_box_finish_fits(f: FrameView, pod: Region, finish: BlockFinish, shift: Rel<Abs>) -> bool {
    let base = spec_block_base(f, pod.size, pod.expand, finish);
    &&& spec_block_finish_fits(f, pod.size, pod.expand, finish)
    &&& in_range(spec_scale(shift.rel.0 as int, base.size.y.0 as int))
    &&& in_range(shift.spec_relative_to(base.size.y))
    &&& in_range(base.spec_baseline().0 - shift.spec_relative_to(base.size.y))
}

/// Finish the frame of a box once its body is laid out into the pod: it is
/// finished like a block's frame in the pod, gets the box's label, and its
/// baseline is shifted up by `shift`, resolved relative to the final height.
pub fn finish_box_frame<C, F>(
    frame: Frame,
    pod: Region,
    finish: &BlockFinish,
    decorate: bool,
    clip_path: C,
    styled: F,
    shift: Rel<Abs>,
) -> (r: Frame) where C: Fn(Size) -> Path, F: Fn(Size) -> Vec<Shape>
    requires
        spec_box_finish_fits(frame@, pod, *finish, shift),
        forall|s: Size| clip_path.requires((s,)),
        forall|s: Size| styled.requires((s,)),
    ensures
        exists|m: Frame|
            spec_block_finished(frame@, pod.size, pod.expand, *finish, decorate, clip_path, styled, m@)
                && r@ == spec_baseline_shifted(spec_block_labelled(m, finish.label), shift),
{
    let mut frame = finish_block_frame(frame, pod.size, pod.expand, finish, decorate, clip_path, styled);
    let ghost m = frame;
    match finish.label {
        Some(l) => frame.label(l),
        None => {},
    }
    assert(frame@ == spec_block_labelled(m, finish.label));
    let v = shift.relative_to(frame.height());
    if v.0 != 0 {
        let b = frame.baseline().minus(v);
        frame.set_baseline(b);
    }
    frame
}

} // verus!
