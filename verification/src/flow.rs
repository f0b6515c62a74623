//! Flow layout: arranging blocks, spacing and placed content one after the
//! other into regions.

use vstd::prelude::*;

use crate::align::{Alignment, FixedAlignment, HAlignment};
use crate::content::{StyleChain, Tag};
use crate::place::PlaceElem;
use crate::frame::{
    origin, spec_post_processed, spec_push_frame, spec_should_inline, spec_translatable, spec_translate, Frame,
    FrameItem, FrameKind, FrameView,
};
use crate::geom::{
    in_range, spec_scale, spec_share, Abs, Axes, Dir, Fr, NonZeroUsize, Point, Rel, Size, Smart,
};
use crate::regions::{Regions, RegionsView};

verus! {

/// A prepared item in a flow layout.
#[derive(Debug)]
pub enum FlowItem {
    /// Spacing between other items and whether it is weak.
    Absolute(Abs, bool),
    /// Fractional spacing between other items.
    Fractional(Fr),
    /// A frame for a layouted block.
    Frame {
        /// The frame itself.
        frame: Frame,
        /// How to align the frame.
        align: Axes<FixedAlignment>,
        /// Whether the frame sticks to the item after it (for orphan
        /// prevention).
        sticky: bool,
        /// Whether the frame is movable; that is, kept together with its
        /// footnotes.
        movable: bool,
    },
    /// An absolutely placed frame.
    Placed {
        /// The layouted content.
        frame: Frame,
        /// Where to place the content horizontally.
        x_align: FixedAlignment,
        /// Where to place the content vertically.
        y_align: Smart<Option<FixedAlignment>>,
        /// A translation to apply to the content.
        delta: Axes<Rel<Abs>>,
        /// Whether the content floats, i.e. collides with in-flow content.
        float: bool,
        /// The amount of space that needs to be kept between the placed
        /// content and in-flow content. Only relevant if `float` is `true`.
        clearance: Abs,
    },
    /// A footnote frame (can also be the separator).
    Footnote(Frame),
}

/// Whether a frame item is metadata: a link or a tag.
pub open spec fn spec_is_meta(item: FrameItem) -> bool {
    item is Link || item is Tag
}

/// Whether a flow item is out-of-flow: a placed item that does not float,
/// or a frame of zero size that holds nothing but metadata.
pub open spec fn spec_is_out_of_flow(item: FlowItem) -> bool {
    match item {
        FlowItem::Placed { float, .. } => !float,
        FlowItem::Frame { frame, .. } => {
            &&& frame@.size.x.0 == 0
            &&& frame@.size.y.0 == 0
            &&& forall|i: int|
                0 <= i < frame@.items.len() ==> spec_is_meta(#[trigger] frame@.items[i].1)
        },
        _ => false,
    }
}

impl FlowItem {
    /// Whether this item is out-of-flow.
    ///
    /// Out-of-flow items are guaranteed to have a zero size.
    pub fn is_out_of_flow(&self) -> (r: bool)
        ensures
            r == spec_is_out_of_flow(*self),
    {
        match self {
            FlowItem::Placed { float, .. } => !*float,
            FlowItem::Frame { frame, .. } => {
                frame.width().0 == 0 && frame.height().0 == 0 && only_meta(frame)
            },
            _ => false,
        }
    }
}

/// Whether a frame holds nothing but metadata.
fn only_meta(frame: &Frame) -> (r: bool)
    ensures
        r == forall|i: int|
            0 <= i < frame@.items.len() ==> spec_is_meta(#[trigger] frame@.items[i].1),
{
    let items = frame.items();
    let mut i: usize = 0;
    while i < items.len()
        invariant
            items@ == frame@.items,
            i <= items@.len(),
            forall|k: int| 0 <= k < i ==> spec_is_meta(#[trigger] items@[k].1),
        decreases items@.len() - i,
    {
        match &items[i].1 {
            FrameItem::Link(_, _) => {},
            FrameItem::Tag(_) => {},
            _ => {
                assert(!spec_is_meta(frame@.items[i as int].1));
                return false;
            },
        }
        i += 1;
    }
    true
}

/// The height of a frame.
pub open spec fn height_of(f: Frame) -> int {
    f@.size.y.0 as int
}

/// The width of a frame.
pub open spec fn width_of(f: Frame) -> int {
    f@.size.x.0 as int
}

/// The items without the weak spacing at their end.
pub open spec fn spec_trim_weak(items: Seq<FlowItem>) -> Seq<FlowItem>
    decreases items.len(),
{
    if items.len() > 0 && items.last() matches FlowItem::Absolute(_, true) {
        spec_trim_weak(items.drop_last())
    } else {
        items
    }
}

/// The space used by the items of a region.
pub struct FlowUsage {
    /// The total of the fractional spacing.
    pub fr: int,
    /// The widest frame or footnote.
    pub used_x: int,
    /// The height of the spacing and frames.
    pub used_y: int,
    /// The height of the footnotes, with the gaps between them.
    pub footnote: int,
    /// The height of the floats at the top.
    pub top: int,
    /// The height of the floats at the bottom.
    pub bottom: int,
    /// Whether no footnote was seen yet.
    pub first_footnote: bool,
}

/// The larger of two integers.
pub open spec fn imax(a: int, b: int) -> int {
    if a >= b {
        a
    } else {
        b
    }
}

/// The space used by the items, with `gap` between two footnotes.
pub open spec fn spec_usage(items: Seq<FlowItem>, gap: int) -> FlowUsage
    decreases items.len(),
{
    if items.len() == 0 {
        FlowUsage { fr: 0, used_x: 0, used_y: 0, footnote: 0, top: 0, bottom: 0, first_footnote: true }
    } else {
        let u = spec_usage(items.drop_last(), gap);
        match items.last() {
            FlowItem::Absolute(v, _) => FlowUsage { used_y: u.used_y + v.0, ..u },
            FlowItem::Fractional(v) => FlowUsage { fr: u.fr + v.0, ..u },
            FlowItem::Frame { frame, .. } => FlowUsage {
                used_y: u.used_y + height_of(frame),
                used_x: imax(u.used_x, width_of(frame)),
                ..u
            },
            FlowItem::Placed { frame, float, y_align, .. } => if !float {
                u
            } else {
                match y_align {
                    Smart::Custom(Some(FixedAlignment::Start)) => FlowUsage {
                        top: u.top + height_of(frame),
                        ..u
                    },
                    Smart::Custom(Some(FixedAlignment::End)) => FlowUsage {
                        bottom: u.bottom + height_of(frame),
                        ..u
                    },
                    _ => u,
                }
            },
            FlowItem::Footnote(frame) => FlowUsage {
                footnote: u.footnote + height_of(frame) + if u.first_footnote {
                    0
                } else {
                    gap
                },
                first_footnote: false,
                used_x: imax(u.used_x, width_of(frame)),
                ..u
            },
        }
    }
}

/// Whether every partial sum of the usage stays in the range of lengths.
pub open spec fn spec_usage_fits(items: Seq<FlowItem>, gap: int) -> bool
    decreases items.len(),
{
    if items.len() == 0 {
        true
    } else {
        let u = spec_usage(items, gap);
        let p = spec_usage(items.drop_last(), gap);
        &&& spec_usage_fits(items.drop_last(), gap)
        &&& in_range(u.fr)
        &&& in_range(u.used_y)
        &&& in_range(u.footnote)
        &&& in_range(u.top)
        &&& in_range(u.bottom)
        &&& (items.last() is Footnote ==> in_range(p.footnote + height_of(
            items.last()->Footnote_0,
        )))
    }
}

/// Drop the weak spacing at the end of the items.
fn trim_weak(items: &mut Vec<FlowItem>)
    ensures
        final(items)@ == spec_trim_weak(old(items)@),
{
    loop
        invariant
            spec_trim_weak(items@) == spec_trim_weak(old(items)@),
        decreases items@.len(),
    {
        let n = items.len();
        if n == 0 {
            return;
        }
        let weak = match &items[n - 1] {
            FlowItem::Absolute(_, w) => *w,
            _ => false,
        };
        if !weak {
            return;
        }
        let ghost before = items@;
        items.pop();
        assert(items@ == before.drop_last());
    }
}

/// The space used by the items, with `gap` between two footnotes.
fn usage(items: &Vec<FlowItem>, gap: Abs) -> (r: (Fr, Abs, Abs, Abs, Abs, Abs))
    requires
        spec_usage_fits(items@, gap.0 as int),
    ensures
        ({
            let u = spec_usage(items@, gap.0 as int);
            &&& r.0.0 == u.fr
            &&& r.1.0 == u.used_x
            &&& r.2.0 == u.used_y
            &&& r.3.0 == u.footnote
            &&& r.4.0 == u.top
            &&& r.5.0 == u.bottom
        }),
{
    let mut fr = Fr::zero();
    let mut used_x = Abs::zero();
    let mut used_y = Abs::zero();
    let mut footnote = Abs::zero();
    let mut top = Abs::zero();
    let mut bottom = Abs::zero();
    let mut first = true;
    let mut i: usize = 0;
    while i < items.len()
        invariant
            i <= items@.len(),
            spec_usage_fits(items@, gap.0 as int),
            ({
                let u = spec_usage(items@.take(i as int), gap.0 as int);
                &&& fr.0 == u.fr
                &&& used_x.0 == u.used_x
                &&& used_y.0 == u.used_y
                &&& footnote.0 == u.footnote
                &&& top.0 == u.top
                &&& bottom.0 == u.bottom
                &&& first == u.first_footnote
            }),
        decreases items@.len() - i,
    {
        let ghost next = items@.take(i + 1);
        assert(next.drop_last() =~= items@.take(i as int));
        proof {
            lemma_usage_fits_prefix(items@, gap.0 as int, i + 1);
        }
        match &items[i] {
            FlowItem::Absolute(v, _) => {
                used_y = used_y.plus(*v);
            },
            FlowItem::Fractional(v) => {
                fr = fr.plus(*v);
            },
            FlowItem::Frame { frame, .. } => {
                used_y = used_y.plus(frame.height());
                used_x = used_x.max(frame.width());
            },
            FlowItem::Placed { frame, float, y_align, .. } => {
                if *float {
                    match y_align {
                        Smart::Custom(Some(FixedAlignment::Start)) => {
                            top = top.plus(frame.height());
                        },
                        Smart::Custom(Some(FixedAlignment::End)) => {
                            bottom = bottom.plus(frame.height());
                        },
                        _ => {},
                    }
                }
            },
            FlowItem::Footnote(frame) => {
                footnote = footnote.plus(frame.height());
                if !first {
                    footnote = footnote.plus(gap);
                }
                first = false;
                used_x = used_x.max(frame.width());
            },
        }
        i += 1;
    }
    assert(items@.take(items@.len() as int) =~= items@);
    (fr, used_x, used_y, footnote, top, bottom)
}

/// The usage of a prefix of the items fits if the usage of all of them
/// does.
proof fn lemma_usage_fits_prefix(items: Seq<FlowItem>, gap: int, k: int)
    requires
        0 <= k <= items.len(),
        spec_usage_fits(items, gap),
    ensures
        spec_usage_fits(items.take(k), gap),
    decreases items.len() - k,
{
    if k < items.len() {
        assert(items.take(k + 1).drop_last() =~= items.take(k));
        lemma_usage_fits_prefix(items, gap, k + 1);
    } else {
        assert(items.take(k) =~= items);
    }
}

/// What placing the items of a region depends on.
pub struct FlowCtx {
    /// The size of the region's frame.
    pub size: Size,
    /// The total height used by spacing, frames, footnotes and floats.
    pub used_y: int,
    /// The height of the region.
    pub initial_y: int,
    /// The total of the fractional spacing.
    pub fr: int,
    /// The height of the footnotes.
    pub footnote: int,
    /// The height of the floats at the bottom.
    pub bottom: int,
    /// The gap between two footnotes.
    pub gap: int,
}

/// The state of placing the items of a region.
pub struct Placing {
    /// Where the next in-flow item goes.
    pub offset: int,
    /// The vertical alignment of the in-flow frames so far.
    pub ruler: FixedAlignment,
    /// Where the next float at the top goes.
    pub top: int,
    /// How far the floats at the bottom reach so far.
    pub bottom: int,
    /// Where the next footnote goes.
    pub note: int,
    /// The frame of the region.
    pub out: FrameView,
    /// Whether every position so far is in the range of lengths.
    pub ok: bool,
}

/// The state after adding a frame at `pos` when all of `conds` hold.
pub open spec fn spec_placed_frame(p: Placing, pos: Point, frame: Frame, conds: bool) -> Placing {
    Placing {
        out: spec_push_frame(p.out, pos, frame),
        ok: p.ok && conds && (spec_should_inline(p.out, frame@) ==> spec_translatable(
            frame@.items,
            pos,
        )),
        ..p
    }
}

/// The point at integer coordinates.
pub open spec fn point_at(x: int, y: int) -> Point {
    Point { x: Abs(x as i64), y: Abs(y as i64) }
}

/// The state after placing an in-flow frame: aligned horizontally in the
/// region, and vertically below what came before, moved by the strongest
/// vertical alignment so far into the free space.
pub open spec fn spec_place_frame(
    p: Placing,
    ctx: FlowCtx,
    frame: Frame,
    align: Axes<FixedAlignment>,
) -> Placing {
    let ruler = p.ruler.spec_max(align.y);
    let dx = ctx.size.x.0 - width_of(frame);
    let dy = ctx.size.y.0 - ctx.used_y;
    let x = align.x.spec_position(Abs(dx as i64));
    let y = p.offset + ruler.spec_position(Abs(dy as i64));
    let next = p.offset + height_of(frame);
    spec_placed_frame(
        Placing { ruler, offset: next, ..p },
        point_at(x, y),
        frame,
        in_range(dx) && in_range(dy) && in_range(y) && in_range(next),
    )
}

/// The vertical position of a placed frame of height `h`, with the state
/// after it: floats go to the top or the bottom of the region, other
/// placed content where it is aligned, or else where the next in-flow item
/// goes. The last component tells whether the arithmetic fits.
pub open spec fn spec_placed_y(
    p: Placing,
    ctx: FlowCtx,
    h: int,
    y_align: Smart<Option<FixedAlignment>>,
    float: bool,
) -> (int, Placing, bool) {
    if float {
        match y_align {
            Smart::Custom(Some(FixedAlignment::Start)) => (
                p.top,
                Placing { top: p.top + h, ..p },
                in_range(p.top + h),
            ),
            Smart::Custom(Some(FixedAlignment::End)) => {
                let a = ctx.size.y.0 - ctx.footnote;
                let b = a - ctx.bottom;
                let y = b + p.bottom;
                (
                    y,
                    Placing { bottom: p.bottom + h, ..p },
                    in_range(a) && in_range(b) && in_range(y) && in_range(p.bottom + h),
                )
            },
            _ => (0, p, false),
        }
    } else {
        match y_align {
            Smart::Custom(Some(a)) => {
                let d = ctx.size.y.0 - h;
                (a.spec_position(Abs(d as i64)), p, in_range(d))
            },
            _ => {
                let dy = ctx.size.y.0 - ctx.used_y;
                let y = p.offset + p.ruler.spec_position(Abs(dy as i64));
                (y, p, in_range(dy) && in_range(y))
            },
        }
    }
}

/// The state after placing a placed frame, moved by its delta resolved
/// relative to the region's size.
pub open spec fn spec_place_placed(
    p: Placing,
    ctx: FlowCtx,
    frame: Frame,
    x_align: FixedAlignment,
    y_align: Smart<Option<FixedAlignment>>,
    delta: Axes<Rel<Abs>>,
    float: bool,
) -> Placing {
    let dx = ctx.size.x.0 - width_of(frame);
    let x = x_align.spec_position(Abs(dx as i64));
    let (y, q, yok) = spec_placed_y(p, ctx, height_of(frame), y_align, float);
    let mx = delta.x.spec_relative_to(ctx.size.x);
    let my = delta.y.spec_relative_to(ctx.size.y);
    spec_placed_frame(
        q,
        point_at(x + mx, y + my),
        frame,
        in_range(dx) && yok && delta.spec_resolvable(ctx.size) && in_range(x + mx) && in_range(
            y + my,
        ),
    )
}

/// The state after placing a footnote: below the other footnotes at the
/// bottom of the region.
pub open spec fn spec_place_footnote(p: Placing, ctx: FlowCtx, frame: Frame) -> Placing {
    let a = ctx.size.y.0 - ctx.footnote;
    let y = a + p.note;
    let b = p.note + height_of(frame);
    let note = b + ctx.gap;
    spec_placed_frame(
        Placing { note, ..p },
        point_at(0, y),
        frame,
        in_range(a) && in_range(y) && in_range(b) && in_range(note),
    )
}

/// The state after placing one item.
pub open spec fn spec_place_step(p: Placing, ctx: FlowCtx, item: FlowItem) -> Placing {
    match item {
        FlowItem::Absolute(v, _) => Placing {
            offset: p.offset + v.0,
            ok: p.ok && in_range(p.offset + v.0),
            ..p
        },
        FlowItem::Fractional(v) => {
            let rem = ctx.initial_y - ctx.used_y;
            let len = spec_share(v.0 as int, ctx.fr, rem);
            Placing {
                offset: p.offset + len,
                ok: p.ok && in_range(rem) && in_range(len) && in_range(p.offset + len),
                ..p
            }
        },
        FlowItem::Frame { frame, align, .. } => spec_place_frame(p, ctx, frame, align),
        FlowItem::Placed { frame, x_align, y_align, delta, float, .. } => spec_place_placed(
            p,
            ctx,
            frame,
            x_align,
            y_align,
            delta,
            float,
        ),
        FlowItem::Footnote(frame) => spec_place_footnote(p, ctx, frame),
    }
}

/// The state after placing the items in order, starting from `start`.
pub open spec fn spec_place(items: Seq<FlowItem>, ctx: FlowCtx, start: Placing) -> Placing
    decreases items.len(),
{
    if items.len() == 0 {
        start
    } else {
        spec_place_step(spec_place(items.drop_last(), ctx, start), ctx, items.last())
    }
}

/// Once an arithmetic overflow occurred while placing, it stays recorded.
proof fn lemma_place_ok_prefix(items: Seq<FlowItem>, ctx: FlowCtx, start: Placing, k: int)
    requires
        0 <= k <= items.len(),
        spec_place(items, ctx, start).ok,
    ensures
        spec_place(items.take(k), ctx, start).ok,
    decreases items.len() - k,
{
    if k < items.len() {
        assert(items.take(k + 1).drop_last() =~= items.take(k));
        lemma_place_ok_prefix(items, ctx, start, k + 1);
    } else {
        assert(items.take(k) =~= items);
    }
}

/// The state of placing the items of a region, while running.
struct PlaceState {
    offset: Abs,
    ruler: FixedAlignment,
    top: Abs,
    bottom: Abs,
    note: Abs,
}

/// The placing state the running state and frame stand for.
spec fn placing_of(st: PlaceState, out: FrameView, ok: bool) -> Placing {
    Placing {
        offset: st.offset.0 as int,
        ruler: st.ruler,
        top: st.top.0 as int,
        bottom: st.bottom.0 as int,
        note: st.note.0 as int,
        out,
        ok,
    }
}

/// The region's context as lengths.
struct PlaceCtx {
    size: Size,
    used_y: Abs,
    initial_y: Abs,
    fr: Fr,
    footnote: Abs,
    bottom: Abs,
    gap: Abs,
}

/// The context the lengths stand for.
spec fn ctx_of(c: PlaceCtx) -> FlowCtx {
    FlowCtx {
        size: c.size,
        used_y: c.used_y.0 as int,
        initial_y: c.initial_y.0 as int,
        fr: c.fr.0 as int,
        footnote: c.footnote.0 as int,
        bottom: c.bottom.0 as int,
        gap: c.gap.0 as int,
    }
}

/// Place one item into the region's frame.
fn place_item(st: &mut PlaceState, out: &mut Frame, ctx: &PlaceCtx, item: FlowItem)
    requires
        spec_place_step(placing_of(*old(st), old(out)@, true), ctx_of(*ctx), item).ok,
    ensures
        placing_of(*final(st), final(out)@, true) == spec_place_step(
            placing_of(*old(st), old(out)@, true),
            ctx_of(*ctx),
            item,
        ),
{
    match item {
        FlowItem::Absolute(v, _) => {
            st.offset = st.offset.plus(v);
        },
        FlowItem::Fractional(v) => {
            let rem = ctx.initial_y.minus(ctx.used_y);
            let len = v.share(ctx.fr, rem);
            st.offset = st.offset.plus(len);
        },
        FlowItem::Frame { frame, align, .. } => {
            st.ruler = st.ruler.max(align.y);
            let x = align.x.position(ctx.size.x.minus(frame.width()));
            let y = st.offset.plus(st.ruler.position(ctx.size.y.minus(ctx.used_y)));
            st.offset = st.offset.plus(frame.height());
            out.push_frame(Point::new(x, y), frame);
        },
        FlowItem::Placed { frame, x_align, y_align, delta, float, .. } => {
            let x = x_align.position(ctx.size.x.minus(frame.width()));
            let h = frame.height();
            let y = if float {
                match y_align {
                    Smart::Custom(Some(FixedAlignment::Start)) => {
                        let y = st.top;
                        st.top = st.top.plus(h);
                        y
                    },
                    _ => {
                        let y = ctx.size.y.minus(ctx.footnote).minus(ctx.bottom).plus(st.bottom);
                        st.bottom = st.bottom.plus(h);
                        y
                    },
                }
            } else {
                match y_align {
                    Smart::Custom(Some(a)) => a.position(ctx.size.y.minus(h)),
                    _ => st.offset.plus(st.ruler.position(ctx.size.y.minus(ctx.used_y))),
                }
            };
            let moved = delta.relative_to(ctx.size);
            let pos = Point::new(x.plus(moved.x), y.plus(moved.y));
            out.push_frame(pos, frame);
        },
        FlowItem::Footnote(frame) => {
            let y = ctx.size.y.minus(ctx.footnote).plus(st.note);
            st.note = st.note.plus(frame.height()).plus(ctx.gap);
            out.push_frame(Point::with_y(y), frame);
        },
    }
}

/// Lays out the children of a flow one after the other into regions.
///
/// This is the layouter of flows below the page level: the page-level flow
/// also collects the footnotes of what it places, which needs the engine.
pub struct FlowLayouter<'a> {
    /// The regions to layout children into.
    pub regions: Regions<'a>,
    /// Whether the flow should expand to fill the region.
    pub expand: Axes<bool>,
    /// The size of the first region before anything was subtracted from it.
    pub initial: Size,
    /// Whether the last block was a paragraph.
    pub last_was_par: bool,
    /// Spacing and layouted blocks for the current region.
    pub items: Vec<FlowItem>,
    /// A queue of tags that will be attached to the next frame.
    pub pending_tags: Vec<Tag>,
    /// A queue of floating elements.
    pub pending_floats: Vec<FlowItem>,
    /// Whether there are footnotes in the current region.
    pub has_footnotes: bool,
    /// The gap between footnotes.
    pub footnote_gap: Abs,
    /// Finished frames for previous regions.
    pub finished: Vec<Frame>,
    /// The number of columns.
    pub columns: usize,
    /// The gutter between columns.
    pub column_gutter: Abs,
}

/// A flow layouter as plain values.
pub struct FlowView {
    /// The regions.
    pub regions: RegionsView,
    /// Whether the flow should expand to fill the region.
    pub expand: Axes<bool>,
    /// The size of the first region before anything was subtracted from it.
    pub initial: Size,
    /// Whether the last block was a paragraph.
    pub last_was_par: bool,
    /// The items of the current region.
    pub items: Seq<FlowItem>,
    /// The tags waiting for the next frame.
    pub pending_tags: Seq<Tag>,
    /// The floats waiting for a region.
    pub pending_floats: Seq<FlowItem>,
    /// Whether there are footnotes in the current region.
    pub has_footnotes: bool,
    /// The gap between footnotes.
    pub footnote_gap: Abs,
    /// The finished frames.
    pub finished: Seq<Frame>,
    /// The number of columns.
    pub columns: usize,
    /// The gutter between columns.
    pub column_gutter: Abs,
}

impl<'a> FlowLayouter<'a> {
    /// The layouter as plain values.
    pub open spec fn view(&self) -> FlowView {
        FlowView {
            regions: self.regions@,
            expand: self.expand,
            initial: self.initial,
            last_was_par: self.last_was_par,
            items: self.items@,
            pending_tags: self.pending_tags@,
            pending_floats: self.pending_floats@,
            has_footnotes: self.has_footnotes,
            footnote_gap: self.footnote_gap,
            finished: self.finished@,
            columns: self.columns,
            column_gutter: self.column_gutter,
        }
    }
}

/// The smaller of two integers.
pub open spec fn imin(a: int, b: int) -> int {
    if a <= b {
        a
    } else {
        b
    }
}

/// The total height the items use: spacing, frames, footnotes and floats.
pub open spec fn spec_used_y(u: FlowUsage) -> int {
    u.used_y + (u.footnote + u.top + u.bottom)
}

/// The size of a region's frame: what the items use, or the whole region
/// along the axes where the flow expands, never more than the region; the
/// full height when there is fractional spacing or footnotes.
pub open spec fn spec_region_size(
    items: Seq<FlowItem>,
    initial: Size,
    expand: Axes<bool>,
    has_footnotes: bool,
    gap: int,
) -> Size {
    let u = spec_usage(items, gap);
    let w = imin(if expand.x { initial.x.0 as int } else { u.used_x }, initial.x.0 as int);
    let h = if u.fr > 0 || has_footnotes {
        initial.y.0 as int
    } else {
        imin(if expand.y { initial.y.0 as int } else { spec_used_y(u) }, initial.y.0 as int)
    };
    Axes { x: Abs(w as i64), y: Abs(h as i64) }
}

/// The context of placing the items of a region.
pub open spec fn spec_region_ctx(
    items: Seq<FlowItem>,
    initial: Size,
    expand: Axes<bool>,
    has_footnotes: bool,
    gap: int,
) -> FlowCtx {
    let u = spec_usage(items, gap);
    FlowCtx {
        size: spec_region_size(items, initial, expand, has_footnotes, gap),
        used_y: spec_used_y(u),
        initial_y: initial.y.0 as int,
        fr: u.fr,
        footnote: u.footnote,
        bottom: u.bottom,
        gap,
    }
}

/// The state before placing the items of a region: an empty soft frame of
/// the region's size, with in-flow content starting below the floats at the
/// top.
pub open spec fn spec_region_start(
    items: Seq<FlowItem>,
    initial: Size,
    expand: Axes<bool>,
    has_footnotes: bool,
    gap: int,
) -> Placing {
    Placing {
        offset: spec_usage(items, gap).top,
        ruler: FixedAlignment::Start,
        top: 0,
        bottom: 0,
        note: 0,
        out: FrameView {
            size: spec_region_size(items, initial, expand, has_footnotes, gap),
            baseline: None,
            items: Seq::empty(),
            kind: FrameKind::Soft,
        },
        ok: true,
    }
}

/// The tags as frame items at a position.
pub open spec fn spec_tag_items(tags: Seq<Tag>, pos: Point) -> Seq<(Point, FrameItem)> {
    Seq::new(tags.len(), |i: int| (pos, FrameItem::Tag(tags[i])))
}

/// The state after placing all items of the region.
pub open spec fn spec_region_placed(f: FlowView) -> Placing {
    let items = spec_trim_weak(f.items);
    let gap = f.footnote_gap.0 as int;
    spec_place(
        items,
        spec_region_ctx(items, f.initial, f.expand, f.has_footnotes, gap),
        spec_region_start(items, f.initial, f.expand, f.has_footnotes, gap),
    )
}

/// The frame of a finished region: the placed items, and when forced, the
/// pending tags after the in-flow content.
pub open spec fn spec_region_frame(f: FlowView, force: bool) -> FrameView {
    let p = spec_region_placed(f);
    if force && f.pending_tags.len() > 0 {
        FrameView { items: p.out.items + spec_tag_items(f.pending_tags, point_at(0, p.offset)), ..p.out }
    } else {
        p.out
    }
}

/// Whether finishing the region stays in the range of lengths.
pub open spec fn spec_region_fits(f: FlowView) -> bool {
    let items = spec_trim_weak(f.items);
    let gap = f.footnote_gap.0 as int;
    let u = spec_usage(items, gap);
    &&& spec_usage_fits(items, gap)
    &&& in_range(u.footnote + u.top)
    &&& in_range(u.footnote + u.top + u.bottom)
    &&& in_range(spec_used_y(u))
    &&& spec_region_placed(f).ok
}

/// Whether the region only holds out-of-flow items, so that finishing it
/// without force leaves them for the next region.
pub open spec fn spec_only_out_of_flow(items: Seq<FlowItem>) -> bool {
    items.len() > 0 && forall|i: int| 0 <= i < items.len() ==> spec_is_out_of_flow(#[trigger] items[i])
}

impl<'a> FlowLayouter<'a> {
    /// The frame of the current region, with the items placed into it; the
    /// items are taken, and when forced, the pending tags too.
    fn compose(&mut self, force: bool) -> (out: Frame)
        requires
            spec_region_fits(old(self).view()),
        ensures
            out@ == spec_region_frame(old(self).view(), force),
            final(self).view() == (FlowView {
                items: Seq::empty(),
                pending_tags: if force && old(self).view().pending_tags.len() > 0 {
                    Seq::empty()
                } else {
                    old(self).view().pending_tags
                },
                ..old(self).view()
            }),
    {
        let ghost start_view = self.view();
        trim_weak(&mut self.items);
        let gap = self.footnote_gap;
        let (fr, used_x, used_y0, footnote, top, bottom) = usage(&self.items, gap);
        let used_y = used_y0.plus(footnote.plus(top).plus(bottom));
        let w = (if self.expand.x {
            self.initial.x
        } else {
            used_x
        }).min(self.initial.x);
        let h = if fr.0 > 0 || self.has_footnotes {
            self.initial.y
        } else {
            (if self.expand.y {
                self.initial.y
            } else {
                used_y
            }).min(self.initial.y)
        };
        let size = Axes::new(w, h);
        let mut output = Frame::soft(size);
        let ctx = PlaceCtx { size, used_y, initial_y: self.initial.y, fr, footnote, bottom, gap };
        let mut st = PlaceState {
            offset: top,
            ruler: FixedAlignment::Start,
            top: Abs::zero(),
            bottom: Abs::zero(),
            note: Abs::zero(),
        };
        let mut items: Vec<FlowItem> = Vec::new();
        std::mem::swap(&mut items, &mut self.items);
        let ghost all = items@;
        let ghost gctx = spec_region_ctx(
            all,
            start_view.initial,
            start_view.expand,
            start_view.has_footnotes,
            gap.0 as int,
        );
        let ghost start = spec_region_start(
            all,
            start_view.initial,
            start_view.expand,
            start_view.has_footnotes,
            gap.0 as int,
        );
        assert(ctx_of(ctx) == gctx);
        assert(placing_of(st, output@, true) == spec_place(all.take(0), gctx, start));
        let mut i: usize = 0;
        while i < items.len()
            invariant
                items@.len() == all.len(),
                i <= all.len(),
                forall|k: int| i <= k < all.len() ==> #[trigger] items@[k] == all[k],
                ctx_of(ctx) == gctx,
                spec_place(all, gctx, start).ok,
                placing_of(st, output@, true) == spec_place(all.take(i as int), gctx, start),
            decreases all.len() - i,
        {
            proof {
                lemma_place_ok_prefix(all, gctx, start, i + 1);
                assert(all.take(i + 1).drop_last() =~= all.take(i as int));
            }
            let mut entry = FlowItem::Fractional(Fr::zero());
            std::mem::swap(&mut entry, &mut items[i]);
            place_item(&mut st, &mut output, &ctx, entry);
            i += 1;
        }
        assert(all.take(all.len() as int) =~= all);
        if force && self.pending_tags.len() > 0 {
            let pos = Point::with_y(st.offset);
            let mut tags: Vec<Tag> = Vec::new();
            std::mem::swap(&mut tags, &mut self.pending_tags);
            let mut marks: Vec<(Point, FrameItem)> = Vec::new();
            let mut k: usize = 0;
            while k < tags.len()
                invariant
                    k <= tags@.len(),
                    marks@ =~= spec_tag_items(tags@.take(k as int), pos),
                decreases tags@.len() - k,
            {
                marks.push((pos, FrameItem::Tag(tags[k])));
                k += 1;
            }
            assert(tags@.take(tags@.len() as int) =~= tags@);
            assert(pos == point_at(0, st.offset.0 as int));
            output.push_multiple(marks);
        }
        output
    }
}

/// Whether a float of height `h` with `clearance` waits for a later region:
/// another float already waits, or it does not fit and a later region
/// exists.
pub open spec fn spec_float_waits(f: FlowView, h: int, clearance: int) -> bool {
    f.pending_floats.len() > 0 || (!(h + clearance <= f.regions.size.y.0) && !f.regions.spec_in_last())
}

/// The closer placement of an automatically placed float of height `h` with
/// `clearance`: at the bottom if the middle of the float, placed right at the
/// remaining space's end, would lie in the lower half of the region, else at
/// the top.
pub open spec fn spec_float_align(size_y: int, full: int, h: int, clearance: int) -> FixedAlignment {
    let num = 2 * size_y - (h + clearance);
    if (full > 0 && num <= full) || (full < 0 && num >= full) || (full == 0 && num < 0) {
        FixedAlignment::End
    } else {
        FixedAlignment::Start
    }
}

/// The vertical alignment a float gets: its own, or the closer placement.
pub open spec fn spec_float_y_align(
    f: FlowView,
    h: int,
    clearance: int,
    y_align: Smart<Option<FixedAlignment>>,
) -> Smart<Option<FixedAlignment>> {
    if y_align is Auto {
        Smart::Custom(
            Some(spec_float_align(f.regions.size.y.0 as int, f.regions.full.0 as int, h, clearance)),
        )
    } else {
        y_align
    }
}

/// A float's frame with the clearance added: it grows by the clearance, and
/// at the bottom its content moves down by it.
pub open spec fn spec_float_frame(
    v: FrameView,
    clearance: int,
    y_align: Smart<Option<FixedAlignment>>,
) -> FrameView {
    let grown = FrameView {
        size: Axes { x: v.size.x, y: Abs((v.size.y.0 + clearance) as i64) },
        ..v
    };
    if y_align == Smart::Custom(Some(FixedAlignment::End)) {
        spec_translate(grown, point_at(0, clearance))
    } else {
        grown
    }
}

/// Whether handling the float `item` takes the layouter from `s` to `t`: a
/// float that waits is queued; otherwise it gets its vertical alignment and
/// clearance and takes its height from the region.
pub open spec fn spec_float_step(s: FlowView, item: FlowItem, t: FlowView) -> bool {
    match item {
        FlowItem::Placed { frame, x_align, y_align, delta, float, clearance } => {
            let h = height_of(frame);
            let c = clearance.0 as int;
            if spec_float_waits(s, h, c) {
                t == FlowView { pending_floats: s.pending_floats.push(item), ..s }
            } else {
                let y = spec_float_y_align(s, h, c, y_align);
                &&& t.items.len() == s.items.len() + 1
                &&& t.items.drop_last() == s.items
                &&& t.items.last() matches FlowItem::Placed {
                    frame: f2,
                    x_align: x2,
                    y_align: y2,
                    delta: d2,
                    float: fl2,
                    clearance: c2,
                }
                &&& f2@ == spec_float_frame(frame@, c, y)
                &&& x2 == x_align && y2 == y && d2 == delta && fl2 == float && c2 == clearance
                &&& t == FlowView {
                    items: t.items,
                    regions: RegionsView {
                        size: Axes {
                            x: s.regions.size.x,
                            y: Abs((s.regions.size.y.0 - (h + c)) as i64),
                        },
                        ..s.regions
                    },
                    ..s
                }
            }
        },
        _ => false,
    }
}

/// Whether the float `item` can be handled in the layouter `s` without
/// leaving the range of lengths.
pub open spec fn spec_float_fits(s: FlowView, item: FlowItem) -> bool {
    match item {
        FlowItem::Placed { frame, y_align, float, clearance, .. } => {
            let h = height_of(frame);
            let c = clearance.0 as int;
            let y = spec_float_y_align(s, h, c, y_align);
            &&& float
            &&& (y_align is Auto || y_align == Smart::Custom(Some(FixedAlignment::Start))
                || y_align == Smart::Custom(Some(FixedAlignment::End)))
            &&& in_range(h + c)
            &&& (!spec_float_waits(s, h, c) ==> {
                &&& in_range(s.regions.size.y.0 - (h + c))
                &&& (y == Smart::Custom(Some(FixedAlignment::End)) ==> crate::frame::spec_can_translate(
                    FrameView {
                        size: Axes { x: frame@.size.x, y: Abs((h + c) as i64) },
                        ..frame@
                    },
                    point_at(0, c),
                ))
            })
        },
        _ => false,
    }
}

impl<'a> FlowLayouter<'a> {
    /// Handle a floating placed item: queue it for a later region if it has
    /// to wait, or else choose its vertical alignment if it has none, add
    /// its clearance and add it to the region.
    fn handle_float(&mut self, item: FlowItem)
        requires
            spec_float_fits(old(self).view(), item),
        ensures
            spec_float_step(old(self).view(), item, final(self).view()),
    {
        let ghost original = item;
        match item {
            FlowItem::Placed { frame, x_align, y_align, delta, float, clearance } => {
                let h = frame.height();
                let needed = h.plus(clearance);
                if self.pending_floats.len() > 0 || (!self.regions.size.y.fits(needed)
                    && !self.regions.in_last()) {
                    self.pending_floats.push(
                        FlowItem::Placed { frame, x_align, y_align, delta, float, clearance },
                    );
                    return;
                }
                let mut frame = frame;
                let mut y_align = y_align;
                match y_align {
                    Smart::Auto => {
                        let num: i128 = 2 * (self.regions.size.y.0 as i128) - (needed.0 as i128);
                        let full: i128 = self.regions.full.0 as i128;
                        let end = (full > 0 && num <= full) || (full < 0 && num >= full) || (full
                            == 0 && num < 0);
                        y_align = Smart::Custom(
                            Some(
                                if end {
                                    FixedAlignment::End
                                } else {
                                    FixedAlignment::Start
                                },
                            ),
                        );
                    },
                    _ => {},
                }
                let ghost before = frame@;
                let w = frame.width();
                frame.set_size(Axes::new(w, needed));
                let at_end = match y_align {
                    Smart::Custom(Some(FixedAlignment::End)) => true,
                    _ => false,
                };
                if at_end {
                    frame.translate(Point::with_y(clearance));
                }
                assert(frame@ == spec_float_frame(before, clearance.0 as int, y_align));
                self.regions.size.y = self.regions.size.y.minus(needed);
                let ghost prev_items = self.items@;
                self.items.push(FlowItem::Placed { frame, x_align, y_align, delta, float, clearance });
                assert(self.items@.drop_last() =~= prev_items);
            },
            _ => {},
        }
    }
}

/// Whether handing the floats to the layouter one after the other takes it
/// from `s` to `t`.
pub open spec fn spec_replayed(s: FlowView, floats: Seq<FlowItem>, t: FlowView) -> bool
    decreases floats.len(),
{
    if floats.len() == 0 {
        t == s
    } else {
        exists|m: FlowView| spec_replayed(s, floats.drop_last(), m) && spec_float_step(m, floats.last(), t)
    }
}

/// Whether handing the floats to the layouter one after the other, starting
/// from `s`, stays in the range of lengths.
pub open spec fn spec_replay_fits(s: FlowView, floats: Seq<FlowItem>) -> bool
    decreases floats.len(),
{
    floats.len() == 0 || {
        &&& spec_replay_fits(s, floats.drop_last())
        &&& forall|m: FlowView| #[trigger]
            spec_replayed(s, floats.drop_last(), m) ==> spec_float_fits(m, floats.last())
    }
}

/// Replaying a prefix of the floats fits if replaying all of them does.
proof fn lemma_replay_fits_prefix(s: FlowView, floats: Seq<FlowItem>, k: int)
    requires
        0 <= k <= floats.len(),
        spec_replay_fits(s, floats),
    ensures
        spec_replay_fits(s, floats.take(k)),
    decreases floats.len() - k,
{
    if k < floats.len() {
        assert(floats.take(k + 1).drop_last() =~= floats.take(k));
        lemma_replay_fits_prefix(s, floats, k + 1);
    } else {
        assert(floats.take(k) =~= floats);
    }
}

/// Whether closing the region of `f` gives the frame `out` and takes the
/// layouter to `m`: the frame is finished, the regions advance, and the
/// items, the waiting floats and, when forced, the pending tags are taken.
pub open spec fn spec_closed(f: FlowView, force: bool, out: Frame, m: FlowView) -> bool {
    let next = f.regions.spec_next();
    &&& out@ == spec_region_frame(f, force)
    &&& m == FlowView {
        regions: next,
        initial: next.size,
        has_footnotes: false,
        items: Seq::empty(),
        pending_tags: if force && f.pending_tags.len() > 0 {
            Seq::empty()
        } else {
            f.pending_tags
        },
        pending_floats: Seq::empty(),
        finished: f.finished.push(out),
        ..f
    }
}

/// Whether finishing the region of `f` takes the layouter to `t`. Without
/// force, a region of out-of-flow items only gets an empty frame and keeps
/// its items for the next region. Otherwise the region is closed and the
/// waiting floats are handed to the next region.
pub open spec fn spec_finished_region(f: FlowView, force: bool, t: FlowView) -> bool {
    if !force && spec_only_out_of_flow(f.items) {
        let next = f.regions.spec_next();
        &&& t.finished.len() == f.finished.len() + 1
        &&& t.finished.drop_last() == f.finished
        &&& t.finished.last()@ == (FrameView {
            size: f.initial,
            baseline: None,
            items: Seq::empty(),
            kind: FrameKind::Soft,
        })
        &&& t == FlowView { regions: next, initial: next.size, finished: t.finished, ..f }
    } else {
        exists|out: Frame, m: FlowView| spec_closed(f, force, out, m) && spec_replayed(m, f.pending_floats, t)
    }
}

/// Whether finishing the region of `f` stays in the range of lengths.
pub open spec fn spec_finish_fits(f: FlowView, force: bool) -> bool {
    (!force && spec_only_out_of_flow(f.items)) || {
        &&& spec_region_fits(f)
        &&& forall|out: Frame, m: FlowView| #[trigger]
            spec_closed(f, force, out, m) ==> spec_replay_fits(m, f.pending_floats)
    }
}

impl<'a> FlowLayouter<'a> {
    /// Whether the region holds only out-of-flow items.
    fn only_out_of_flow(&self) -> (r: bool)
        ensures
            r == spec_only_out_of_flow(self.items@),
    {
        if self.items.len() == 0 {
            return false;
        }
        let mut i: usize = 0;
        while i < self.items.len()
            invariant
                i <= self.items@.len(),
                forall|k: int| 0 <= k < i ==> spec_is_out_of_flow(#[trigger] self.items@[k]),
            decreases self.items@.len() - i,
        {
            if !self.items[i].is_out_of_flow() {
                return false;
            }
            i += 1;
        }
        true
    }

    /// Finish the frame for one region.
    ///
    /// Set `force` to `true` to allow creating a frame for out-of-flow
    /// elements only (this is used to force the creation of a frame in case
    /// the remaining elements are all out-of-flow).
    pub fn finish_region(&mut self, force: bool)
        requires
            spec_finish_fits(old(self).view(), force),
        ensures
            spec_finished_region(old(self).view(), force, final(self).view()),
    {
        let ghost f = self.view();
        if !force && self.only_out_of_flow() {
            let ghost before = self.finished@;
            self.finished.push(Frame::soft(self.initial));
            self.regions.next();
            self.initial = self.regions.size;
            assert(self.finished@.drop_last() =~= before);
            return;
        }
        let out = self.compose(force);
        let ghost out_copy = out;
        self.finished.push(out);
        self.regions.next();
        self.initial = self.regions.size;
        self.has_footnotes = false;
        let mut floats: Vec<FlowItem> = Vec::new();
        std::mem::swap(&mut floats, &mut self.pending_floats);
        let ghost m = self.view();
        assert(spec_closed(f, force, out_copy, m));
        let ghost all = floats@;
        assert(all == f.pending_floats);
        assert(spec_replay_fits(m, all));
        assert(spec_replayed(m, all.take(0), self.view()));
        let mut k: usize = 0;
        while k < floats.len()
            invariant
                floats@.len() == all.len(),
                k <= all.len(),
                forall|j: int| k <= j < all.len() ==> #[trigger] floats@[j] == all[j],
                spec_replay_fits(m, all),
                spec_replayed(m, all.take(k as int), self.view()),
            decreases all.len() - k,
        {
            proof {
                lemma_replay_fits_prefix(m, all, k + 1);
                assert(all.take(k + 1).drop_last() =~= all.take(k as int));
            }
            let mut entry = FlowItem::Fractional(Fr::zero());
            std::mem::swap(&mut entry, &mut floats[k]);
            let ghost cur = self.view();
            self.handle_float(entry);
            assert(spec_replayed(m, all.take(k + 1), self.view())) by {
                assert(all.take(k + 1).drop_last() =~= all.take(k as int));
                assert(spec_replayed(m, all.take(k as int), cur));
            }
            k += 1;
        }
        assert(all.take(all.len() as int) =~= all);
    }
}

/// Handing floats to the layouter changes neither the regions' backlog nor
/// their last height, and queues at most one float per float handed; if
/// nothing waits and the first region is the last one, the first float is
/// placed.
proof fn lemma_replay_progress(s: FlowView, floats: Seq<FlowItem>, t: FlowView)
    requires
        spec_replayed(s, floats, t),
    ensures
        t.regions.backlog == s.regions.backlog,
        t.regions.last == s.regions.last,
        t.pending_floats.len() <= s.pending_floats.len() + floats.len(),
        t.items.len() + t.pending_floats.len() == s.items.len() + s.pending_floats.len()
            + floats.len(),
        s.pending_floats.len() == 0 && s.regions.spec_in_last() && floats.len() > 0
            ==> t.pending_floats.len() < floats.len(),
    decreases floats.len(),
{
    if floats.len() > 0 {
        let m = choose|m: FlowView|
            spec_replayed(s, floats.drop_last(), m) && spec_float_step(m, floats.last(), t);
        lemma_replay_progress(s, floats.drop_last(), m);
        if floats.len() == 1 {
            assert(m == s);
        }
    }
}

/// Advancing the regions while a frame of height `h` does not fit: whether
/// finishing regions `n` times takes the layouter from `s` to `t`, each time
/// in a region the frame did not fit and that was not the last one.
pub open spec fn spec_skipped(s: FlowView, h: int, n: nat, t: FlowView) -> bool
    decreases n,
{
    if n == 0 {
        t == s
    } else {
        exists|m: FlowView|
            spec_skipped(s, h, (n - 1) as nat, m) && spec_must_skip(m, h) && spec_finished_region(
                m,
                false,
                t,
            )
    }
}

/// Whether a frame of height `h` does not fit the first region and a later
/// region exists.
pub open spec fn spec_must_skip(s: FlowView, h: int) -> bool {
    !(h <= s.regions.size.y.0) && !s.regions.spec_in_last()
}

/// The measure that finishing a region decreases while a frame does not
/// fit: the regions left, then the floats waiting.
pub open spec fn spec_skip_measure(s: FlowView) -> (int, int) {
    (
        2 * s.regions.backlog.len() + if s.regions.spec_in_last() {
            0int
        } else {
            1int
        },
        s.pending_floats.len() as int,
    )
}

/// Finishing a region that is not the last one decreases the measure.
proof fn lemma_finish_decreases(s: FlowView, t: FlowView)
    requires
        !s.regions.spec_in_last(),
        spec_finished_region(s, false, t),
    ensures
        spec_skip_measure(t).0 < spec_skip_measure(s).0 || (spec_skip_measure(t).0
            == spec_skip_measure(s).0 && spec_skip_measure(t).1 < spec_skip_measure(s).1),
{
    let next = s.regions.spec_next();
    if spec_only_out_of_flow(s.items) {
    } else {
        let (out, m) = choose|out: Frame, m: FlowView|
            spec_closed(s, false, out, m) && spec_replayed(m, s.pending_floats, t);
        lemma_replay_progress(m, s.pending_floats, t);
        if s.regions.backlog.len() == 0 {
            assert(m.regions.spec_in_last());
        }
    }
}

/// Whether the items hold a frame.
pub open spec fn spec_has_frame(items: Seq<FlowItem>) -> bool {
    exists|i: int| 0 <= i < items.len() && #[trigger] items[i] is Frame
}

/// The layouter `s` with `v` taken from the height of its first region and
/// `item` added to its items.
pub open spec fn spec_taken(s: FlowView, v: int, item: FlowItem) -> FlowView {
    FlowView {
        regions: RegionsView {
            size: Axes { x: s.regions.size.x, y: Abs((s.regions.size.y.0 - v) as i64) },
            ..s.regions
        },
        items: s.items.push(item),
        ..s
    }
}

/// Whether handling `item` takes the layouter from `s` to `t`. Weak spacing
/// before any frame is dropped; spacing and frames take their height from
/// the region, and a frame first moves on to a region it fits, as long as
/// there is a later one; floats are handled as such; everything else is
/// just added.
pub open spec fn spec_item_handled(s: FlowView, item: FlowItem, t: FlowView) -> bool {
    match item {
        FlowItem::Absolute(v, weak) => if weak && !spec_has_frame(s.items) {
            t == s
        } else {
            t == spec_taken(s, v.0 as int, item)
        },
        FlowItem::Frame { frame, .. } => exists|n: nat, m: FlowView|
            spec_skipped(s, height_of(frame), n, m) && !spec_must_skip(m, height_of(frame)) && t
                == spec_taken(m, height_of(frame), item),
        FlowItem::Placed { float, .. } => if float {
            spec_float_step(s, item, t)
        } else {
            t == FlowView { items: s.items.push(item), ..s }
        },
        _ => t == FlowView { items: s.items.push(item), ..s },
    }
}

/// Whether handling `item` in the layouter `s` stays in the range of
/// lengths.
pub open spec fn spec_item_fits(s: FlowView, item: FlowItem) -> bool {
    match item {
        FlowItem::Absolute(v, weak) => (weak && !spec_has_frame(s.items)) || in_range(
            s.regions.size.y.0 - v.0,
        ),
        FlowItem::Frame { frame, .. } => {
            let h = height_of(frame);
            forall|n: nat, m: FlowView| #[trigger]
                spec_skipped(s, h, n, m) ==> if spec_must_skip(m, h) {
                    spec_finish_fits(m, false)
                } else {
                    in_range(m.regions.size.y.0 - h)
                }
        },
        FlowItem::Placed { float, .. } => !float || spec_float_fits(s, item),
        _ => true,
    }
}

impl<'a> FlowLayouter<'a> {
    /// Whether the region holds a frame.
    fn has_frame(&self) -> (r: bool)
        ensures
            r == spec_has_frame(self.items@),
    {
        let mut i: usize = 0;
        while i < self.items.len()
            invariant
                i <= self.items@.len(),
                forall|k: int| 0 <= k < i ==> !(#[trigger] self.items@[k] is Frame),
            decreases self.items@.len() - i,
        {
            if let FlowItem::Frame { .. } = &self.items[i] {
                return true;
            }
            i += 1;
        }
        false
    }

    /// Handle an item of the flow.
    pub fn handle_item(&mut self, item: FlowItem)
        requires
            spec_item_fits(old(self).view(), item),
        ensures
            spec_item_handled(old(self).view(), item, final(self).view()),
    {
        let ghost s = self.view();
        match item {
            FlowItem::Absolute(v, weak) => {
                if weak && !self.has_frame() {
                    return;
                }
                self.regions.size.y = self.regions.size.y.minus(v);
                self.items.push(FlowItem::Absolute(v, weak));
            },
            FlowItem::Frame { frame, align, sticky, movable } => {
                let height = frame.height();
                let ghost h = height.0 as int;
                let ghost mut n: nat = 0;
                assert(spec_skipped(s, h, 0, self.view()));
                while !self.regions.size.y.fits(height) && !self.regions.in_last()
                    invariant
                        height.0 == h,
                        h == height_of(frame),
                        spec_item_fits(s, FlowItem::Frame { frame, align, sticky, movable }),
                        spec_skipped(s, h, n, self.view()),
                    decreases spec_skip_measure(self.view()).0, spec_skip_measure(self.view()).1,
                {
                    let ghost before = self.view();
                    assert(spec_must_skip(before, h));
                    assert(h == height_of(frame));
                    assert(spec_skipped(s, h, n, before));
                    let ghost it = FlowItem::Frame { frame, align, sticky, movable };
                    assert(spec_item_fits(s, it));
                    assert(it matches FlowItem::Frame { frame: f0, .. } && f0 == frame);
                    assert(forall|n2: nat, m2: FlowView| #[trigger]
                        spec_skipped(s, height_of(frame), n2, m2) ==> if spec_must_skip(m2, height_of(frame)) {
                            spec_finish_fits(m2, false)
                        } else {
                            in_range(m2.regions.size.y.0 - height_of(frame))
                        });
                    assert(spec_finish_fits(before, false));
                    self.finish_region(false);
                    proof {
                        lemma_finish_decreases(before, self.view());
                        assert(spec_skipped(s, h, n + 1, self.view()));
                        n = n + 1;
                    }
                }
                let ghost m = self.view();
                assert(!spec_must_skip(m, h));
                assert(h == height_of(frame));
                assert(spec_skipped(s, h, n, m));
                assert(in_range(m.regions.size.y.0 - h));
                self.regions.size.y = self.regions.size.y.minus(height);
                self.items.push(FlowItem::Frame { frame, align, sticky, movable });
                assert(self.view() == spec_taken(m, h, item));
            },
            FlowItem::Placed { frame, x_align, y_align, delta, float, clearance } => {
                let item = FlowItem::Placed { frame, x_align, y_align, delta, float, clearance };
                if float {
                    self.handle_float(item);
                } else {
                    self.items.push(item);
                }
            },
            FlowItem::Fractional(v) => {
                self.items.push(FlowItem::Fractional(v));
            },
            FlowItem::Footnote(frame) => {
                self.items.push(FlowItem::Footnote(frame));
            },
        }
    }
}

/// Vertical spacing, resolved against the styles: a relative length, or a
/// fraction of the remaining space.
#[derive(Clone, Copy, PartialEq, Eq, Structural, Hash, Debug)]
pub enum Spacing {
    /// Spacing relative to the height of the region.
    Rel(Rel<Abs>),
    /// A fraction of the remaining free space.
    Fr(Fr),
}

/// The flow item of vertical spacing in a region of height `initial_y`.
pub open spec fn spec_spacing_item(amount: Spacing, weak: bool, initial_y: Abs) -> FlowItem {
    match amount {
        Spacing::Rel(rel) => FlowItem::Absolute(
            Abs(rel.spec_relative_to(initial_y) as i64),
            weak,
        ),
        Spacing::Fr(fr) => FlowItem::Fractional(fr),
    }
}

/// Whether a region break is permitted in the layouter `s`.
pub open spec fn spec_can_break(s: FlowView) -> bool {
    s.regions.backlog.len() > 0 || s.regions.last is Some
}

/// Whether finishing regions without force `n` times, each while floats
/// still wait, takes the layouter from `s` to `t`.
pub open spec fn spec_finished_while_floats(s: FlowView, n: nat, t: FlowView) -> bool
    decreases n,
{
    if n == 0 {
        t == s
    } else {
        exists|m: FlowView|
            spec_finished_while_floats(s, (n - 1) as nat, m) && m.pending_floats.len() > 0
                && spec_finished_region(m, false, t)
    }
}

/// Whether finishing regions without force while floats wait, from `s`,
/// stays in the range of lengths and leaves no float waiting within `n`
/// regions, however each region turns out.
pub open spec fn spec_flush_ends(s: FlowView, n: nat) -> bool
    decreases n,
{
    s.pending_floats.len() == 0 || (n > 0 && spec_finish_fits(s, false) && forall|t: FlowView|
        #[trigger] spec_finished_region(s, false, t) ==> spec_flush_ends(t, (n - 1) as nat))
}

/// Whether a flush from `f` stays in the range of lengths and comes to an
/// end: handing the waiting floats to the layouter again fits, and after
/// that, finishing regions leaves no float waiting within some number of
/// regions.
pub open spec fn spec_flush_fits(f: FlowView) -> bool {
    let s0 = FlowView { pending_floats: Seq::empty(), ..f };
    &&& spec_replay_fits(s0, f.pending_floats)
    &&& forall|m: FlowView| #[trigger]
        spec_replayed(s0, f.pending_floats, m) ==> exists|n: nat| spec_flush_ends(m, n)
}

/// Whether a flush takes the layouter from `f` to `t`: the waiting floats
/// are handed to it again, one after the other, and then regions are
/// finished without force while floats wait, until none does.
pub open spec fn spec_flushed(f: FlowView, t: FlowView) -> bool {
    let s0 = FlowView { pending_floats: Seq::empty(), ..f };
    &&& t.pending_floats.len() == 0
    &&& exists|m: FlowView, n: nat|
        spec_replayed(s0, f.pending_floats, m) && spec_finished_while_floats(m, n, t)
}

impl<'a> FlowLayouter<'a> {
    /// Place explicit metadata into the flow.
    pub fn handle_tag(&mut self, tag: Tag)
        ensures
            final(self).view() == (FlowView {
                pending_tags: old(self).view().pending_tags.push(tag),
                ..old(self).view()
            }),
    {
        self.pending_tags.push(tag);
    }

    /// Layout vertical spacing: relative spacing is resolved relative to the
    /// height of the region.
    pub fn handle_v(&mut self, amount: Spacing, weak: bool)
        requires
            amount matches Spacing::Rel(rel) ==> in_range(
                spec_scale_of(rel, old(self).initial.y),
            ) && in_range(rel.spec_relative_to(old(self).initial.y)),
            spec_item_fits(old(self).view(), spec_spacing_item(amount, weak, old(self).initial.y)),
        ensures
            spec_item_handled(
                old(self).view(),
                spec_spacing_item(amount, weak, old(self).initial.y),
                final(self).view(),
            ),
    {
        let item = match amount {
            Spacing::Rel(rel) => FlowItem::Absolute(rel.relative_to(self.initial.y), weak),
            Spacing::Fr(fr) => FlowItem::Fractional(fr),
        };
        self.handle_item(item);
    }

    /// Layout a column break: if there is still an available region, skip
    /// to it.
    pub fn handle_colbreak(&mut self)
        requires
            spec_can_break(old(self).view()) ==> spec_finish_fits(old(self).view(), true),
        ensures
            spec_can_break(old(self).view()) ==> spec_finished_region(
                old(self).view(),
                true,
                final(self).view(),
            ),
            !spec_can_break(old(self).view()) ==> final(self).view() == old(self).view(),
    {
        if self.regions.backlog.len() > 0 || self.regions.last.is_some() {
            self.finish_region(true);
        }
    }

    /// Layout a flush: hand the waiting floats to the layouter again, then
    /// finish regions until no float waits.
    pub fn handle_flush(&mut self)
        requires
            spec_flush_fits(old(self).view()),
        ensures
            spec_flushed(old(self).view(), final(self).view()),
    {
        let ghost f = self.view();
        let mut floats: Vec<FlowItem> = Vec::new();
        std::mem::swap(&mut floats, &mut self.pending_floats);
        let ghost s0 = self.view();
        let ghost all = floats@;
        assert(s0 == FlowView { pending_floats: Seq::empty(), ..f });
        assert(spec_replayed(s0, all.take(0), self.view()));
        let mut k: usize = 0;
        while k < floats.len()
            invariant
                floats@.len() == all.len(),
                k <= all.len(),
                forall|j: int| k <= j < all.len() ==> #[trigger] floats@[j] == all[j],
                spec_replay_fits(s0, all),
                spec_replayed(s0, all.take(k as int), self.view()),
            decreases all.len() - k,
        {
            proof {
                lemma_replay_fits_prefix(s0, all, k + 1);
                assert(all.take(k + 1).drop_last() =~= all.take(k as int));
            }
            let mut entry = FlowItem::Fractional(Fr::zero());
            std::mem::swap(&mut entry, &mut floats[k]);
            let ghost cur = self.view();
            self.handle_float(entry);
            assert(spec_replayed(s0, all.take(k + 1), self.view())) by {
                assert(all.take(k + 1).drop_last() =~= all.take(k as int));
                assert(spec_replayed(s0, all.take(k as int), cur));
            }
            k += 1;
        }
        assert(all.take(all.len() as int) =~= all);
        let ghost m = self.view();
        let ghost mut n: nat = choose|n: nat| spec_flush_ends(m, n);
        let ghost mut done: nat = 0;
        while self.pending_floats.len() > 0
            invariant
                spec_replayed(s0, all, m),
                s0 == (FlowView { pending_floats: Seq::empty(), ..f }),
                all == f.pending_floats,
                spec_flush_ends(self.view(), n),
                spec_finished_while_floats(m, done, self.view()),
            decreases n,
        {
            let ghost before = self.view();
            self.finish_region(false);
            proof {
                assert(spec_finished_while_floats(m, done + 1, self.view()));
                n = (n - 1) as nat;
                done = done + 1;
            }
        }
    }

    /// Attach the pending tags to a frame, in the background, if the frame
    /// holds something.
    pub fn drain_tag(&mut self, frame: &mut Frame)
        ensures
            old(self).view().pending_tags.len() > 0 && old(frame)@.items.len() > 0 ==> {
                &&& final(frame)@ == (FrameView {
                    items: spec_tag_items(old(self).view().pending_tags, origin())
                        + old(frame)@.items,
                    ..old(frame)@
                })
                &&& final(self).view() == (FlowView {
                    pending_tags: Seq::empty(),
                    ..old(self).view()
                })
            },
            !(old(self).view().pending_tags.len() > 0 && old(frame)@.items.len() > 0) ==> {
                &&& final(frame)@ == old(frame)@
                &&& final(self).view() == old(self).view()
            },
    {
        if self.pending_tags.len() > 0 && !frame.is_empty() {
            let mut tags: Vec<Tag> = Vec::new();
            std::mem::swap(&mut tags, &mut self.pending_tags);
            let mut marks: Vec<(Point, FrameItem)> = Vec::new();
            let mut k: usize = 0;
            while k < tags.len()
                invariant
                    k <= tags@.len(),
                    marks@ =~= spec_tag_items(tags@.take(k as int), origin()),
                decreases tags@.len() - k,
            {
                marks.push((Point::zero(), FrameItem::Tag(tags[k])));
                k += 1;
            }
            assert(tags@.take(tags@.len() as int) =~= tags@);
            frame.prepend_multiple(marks);
        }
    }
}

/// The raw product of a relative length's ratio and a whole.
pub open spec fn spec_scale_of(rel: Rel<Abs>, whole: Abs) -> int {
    crate::geom::spec_scale(rel.rel.0 as int, whole.0 as int)
}

/// Where the sticky items at the end of the items start: scanning back from
/// the end over spacing and sticky frames, the first sticky frame of that
/// run, or the end if there is none.
pub open spec fn spec_sticky_scan(items: Seq<FlowItem>, n: int, sticky: int) -> int
    decreases n,
{
    if n <= 0 {
        sticky
    } else {
        match items[n - 1] {
            FlowItem::Absolute(_, _) => spec_sticky_scan(items, n - 1, sticky),
            FlowItem::Frame { sticky: true, .. } => spec_sticky_scan(items, n - 1, n - 1),
            _ => sticky,
        }
    }
}

/// The index at which the sticky items at the end of the items start.
pub open spec fn spec_sticky_start(items: Seq<FlowItem>) -> int {
    spec_sticky_scan(items, items.len() as int, items.len() as int)
}

/// The sticky start lies within the items.
proof fn lemma_sticky_scan_bounds(items: Seq<FlowItem>, n: int, sticky: int)
    requires
        0 <= n <= items.len(),
        n <= sticky <= items.len(),
    ensures
        0 <= spec_sticky_scan(items, n, sticky) <= sticky,
    decreases n,
{
    if n > 0 {
        match items[n - 1] {
            FlowItem::Absolute(_, _) => lemma_sticky_scan_bounds(items, n - 1, sticky),
            FlowItem::Frame { sticky: true, .. } => lemma_sticky_scan_bounds(items, n - 1, n - 1),
            _ => {},
        }
    }
}

/// Whether handling the items one after the other takes the layouter from
/// `s` to `t`.
pub open spec fn spec_all_handled(s: FlowView, items: Seq<FlowItem>, t: FlowView) -> bool
    decreases items.len(),
{
    if items.len() == 0 {
        t == s
    } else {
        exists|m: FlowView| spec_all_handled(s, items.drop_last(), m) && spec_item_handled(m, items.last(), t)
    }
}

/// Whether handling the items one after the other, starting from `s`,
/// stays in the range of lengths.
pub open spec fn spec_all_fit(s: FlowView, items: Seq<FlowItem>) -> bool
    decreases items.len(),
{
    items.len() == 0 || {
        &&& spec_all_fit(s, items.drop_last())
        &&& forall|m: FlowView| #[trigger]
            spec_all_handled(s, items.drop_last(), m) ==> spec_item_fits(m, items.last())
    }
}

/// Handling a prefix of the items fits if handling all of them does.
proof fn lemma_all_fit_prefix(s: FlowView, items: Seq<FlowItem>, k: int)
    requires
        0 <= k <= items.len(),
        spec_all_fit(s, items),
    ensures
        spec_all_fit(s, items.take(k)),
    decreases items.len() - k,
{
    if k < items.len() {
        assert(items.take(k + 1).drop_last() =~= items.take(k));
        lemma_all_fit_prefix(s, items, k + 1);
    } else {
        assert(items.take(k) =~= items);
    }
}

/// The layouter `f` without its sticky items at the end.
pub open spec fn spec_without_sticky(f: FlowView) -> FlowView {
    FlowView { items: f.items.take(spec_sticky_start(f.items)), ..f }
}

/// Whether finishing the region of `f` and moving its sticky items at the
/// end to the next region stays in the range of lengths.
pub open spec fn spec_migration_fits(f: FlowView) -> bool {
    let kept = spec_without_sticky(f);
    let carry = f.items.skip(spec_sticky_start(f.items));
    &&& spec_finish_fits(kept, false)
    &&& forall|m: FlowView| #[trigger]
        spec_finished_region(kept, false, m) ==> spec_all_fit(m, carry)
}

impl<'a> FlowLayouter<'a> {
    /// Finish the region, migrating all sticky items at its end to the next
    /// one.
    ///
    /// Returns whether it migrated into a last region.
    pub fn finish_region_with_migration(&mut self) -> (r: bool)
        requires
            spec_migration_fits(old(self).view()),
        ensures
            exists|m: FlowView|
                {
                    &&& spec_finished_region(spec_without_sticky(old(self).view()), false, m)
                    &&& r == m.regions.spec_in_last()
                    &&& spec_all_handled(
                        m,
                        old(self).view().items.skip(spec_sticky_start(old(self).view().items)),
                        final(self).view(),
                    )
                },
    {
        let ghost f = self.view();
        let mut sticky = self.items.len();
        let mut i = self.items.len();
        while i > 0
            invariant
                self.view() == f,
                i <= sticky <= f.items.len(),
                spec_sticky_start(f.items) == spec_sticky_scan(f.items, i as int, sticky as int),
            ensures
                self.view() == f,
                i <= sticky <= f.items.len(),
                spec_sticky_start(f.items) == spec_sticky_scan(f.items, i as int, sticky as int),
                spec_sticky_scan(f.items, i as int, sticky as int) == sticky,
            decreases i,
        {
            let stop = match &self.items[i - 1] {
                FlowItem::Absolute(_, _) => false,
                FlowItem::Frame { sticky: s, .. } => {
                    if *s {
                        sticky = i - 1;
                        false
                    } else {
                        true
                    }
                },
                _ => true,
            };
            if stop {
                break;
            }
            i -= 1;
        }
        proof {
            lemma_sticky_scan_bounds(f.items, i as int, sticky as int);
        }
        assert(spec_sticky_start(f.items) == sticky);
        let mut carry = self.items.split_off(sticky);
        assert(self.view() == spec_without_sticky(f));
        let ghost all = carry@;
        assert(all == f.items.skip(sticky as int));
        self.finish_region(false);
        let ghost m = self.view();
        let in_last = self.regions.in_last();
        assert(spec_all_fit(m, all));
        assert(spec_all_handled(m, all.take(0), self.view()));
        let mut k: usize = 0;
        while k < carry.len()
            invariant
                carry@.len() == all.len(),
                k <= all.len(),
                forall|j: int| k <= j < all.len() ==> #[trigger] carry@[j] == all[j],
                spec_all_fit(m, all),
                spec_all_handled(m, all.take(k as int), self.view()),
            decreases all.len() - k,
        {
            proof {
                lemma_all_fit_prefix(m, all, k + 1);
                assert(all.take(k + 1).drop_last() =~= all.take(k as int));
            }
            let mut entry = FlowItem::Fractional(Fr::zero());
            std::mem::swap(&mut entry, &mut carry[k]);
            let ghost cur = self.view();
            self.handle_item(entry);
            assert(spec_all_handled(m, all.take(k + 1), self.view())) by {
                assert(all.take(k + 1).drop_last() =~= all.take(k as int));
                assert(spec_all_handled(m, all.take(k as int), cur));
            }
            k += 1;
        }
        assert(all.take(all.len() as int) =~= all);
        in_last
    }
}

/// The heights of the column regions when every region of heights
/// `size_y` and then `backlog` is split into `columns` columns: each height
/// repeated once per column, without the first one.
pub open spec fn spec_column_backlog(size_y: Abs, backlog: Seq<Abs>, columns: int) -> Seq<Abs> {
    let heights = seq![size_y] + backlog;
    Seq::new(
        (heights.len() * columns - 1) as nat,
        |k: int| heights[(k + 1) / columns],
    )
}

/// The width of each of `columns` columns in a region of width `width`,
/// with `gutter` between two columns, rounded down.
pub open spec fn spec_column_width(width: int, gutter: int, columns: int) -> int {
    (width - gutter * (columns - 1)) / columns
}

/// Whether setting up a flow stays in the range of lengths.
pub open spec fn spec_new_fits(regions: RegionsView, columns: int, column_gutter: Rel<Abs>) -> bool {
    let gutter = column_gutter.spec_relative_to(regions.size.x);
    &&& in_range(spec_scale(column_gutter.rel.0 as int, regions.size.x.0 as int))
    &&& in_range(gutter)
    &&& (columns > 1 ==> {
        &&& (1 + regions.backlog.len()) * columns <= usize::MAX
        &&& in_range(gutter * (columns - 1))
        &&& in_range(regions.size.x.0 - gutter * (columns - 1))
    })
}

impl<'a> FlowLayouter<'a> {
    /// Create a new flow layouter for `columns` columns with `column_gutter`
    /// between them, relative to the width of the regions. Where there are
    /// several columns, each region is split into that many column regions,
    /// whose heights `backlog` receives, and the columns expand
    /// horizontally. The flow does not expand vertically unless its only
    /// child is a block (`alone`).
    pub fn new(
        regions: Regions<'a>,
        columns: NonZeroUsize,
        column_gutter: Rel<Abs>,
        alone: bool,
        footnote_gap: Abs,
        backlog: &'a mut Vec<Abs>,
    ) -> (r: Self)
        requires
            spec_new_fits(regions@, columns.spec_get() as int, column_gutter),
        ensures
            ({
                let n = columns.spec_get() as int;
                let gutter = column_gutter.spec_relative_to(regions@.size.x);
                let pod = if n > 1 {
                    RegionsView {
                        size: Axes {
                            x: Abs(spec_column_width(regions@.size.x.0 as int, gutter, n) as i64),
                            y: regions@.size.y,
                        },
                        full: regions@.full,
                        backlog: spec_column_backlog(regions@.size.y, regions@.backlog, n),
                        last: regions@.last,
                        expand: Axes { x: true, y: regions@.expand.y },
                    }
                } else {
                    regions@
                };
                r.view() == FlowView {
                    regions: RegionsView {
                        expand: Axes { x: pod.expand.x, y: pod.expand.y && alone },
                        ..pod
                    },
                    expand: pod.expand,
                    initial: pod.size,
                    last_was_par: false,
                    items: Seq::empty(),
                    pending_tags: Seq::empty(),
                    pending_floats: Seq::empty(),
                    has_footnotes: false,
                    footnote_gap,
                    finished: Seq::empty(),
                    columns: n as usize,
                    column_gutter: Abs(gutter as i64),
                }
            }),
    {
        let n = columns.get();
        let gutter = column_gutter.relative_to(regions.base().x);
        let mut regions = regions;
        if n > 1 {
            let ghost heights = seq![regions.size.y] + regions.backlog@;
            backlog.clear();
            let len = regions.backlog.len();
            proof {
                assert((1 + len) * n <= usize::MAX);
                assert((1 + len) * n >= n && (1 + len) * n >= 1 + len) by (nonlinear_arith)
                    requires
                        n > 1,
                ;
                assert(heights.len() == 1 + len);
            }
            let total = (1 + len) * n;
            let mut k: usize = 1;
            while k < total
                invariant
                    heights == seq![regions.size.y] + regions.backlog@,
                    total == heights.len() * n,
                    n > 1,
                    1 <= k <= total,
                    backlog@.len() == k - 1,
                    forall|j: int| 0 <= j < k - 1 ==> #[trigger] backlog@[j] == heights[(j + 1) / (n as int)],
                decreases total - k,
            {
                let idx = k / n;
                proof {
                    assert(idx < heights.len()) by (nonlinear_arith)
                        requires
                            k < total,
                            total == heights.len() * n,
                            idx == k / n,
                            n > 1,
                    ;
                }
                let h = if idx == 0 {
                    regions.size.y
                } else {
                    regions.backlog[idx - 1]
                };
                backlog.push(h);
                k += 1;
            }
            let ghost filled = backlog@;
            assert(filled =~= spec_column_backlog(regions.size.y, regions.backlog@, n as int));
            proof {
                assert((n - 1) as int * gutter.0 == gutter.0 * (n - 1)) by (nonlinear_arith);
            }
            let spent = (n - 1) as i128 * (gutter.0 as i128);
            proof {
                assert((regions.size.x.0 - gutter.0 * (n - 1)) / (n as int) <= regions.size.x.0 - gutter.0 * (n - 1)
                    || (regions.size.x.0 - gutter.0 * (n - 1)) < 0) by (nonlinear_arith)
                    requires
                        n > 1,
                ;
                assert(in_range((regions.size.x.0 - gutter.0 * (n - 1)) / (n as int))) by (nonlinear_arith)
                    requires
                        n > 1,
                        in_range(regions.size.x.0 - gutter.0 * (n - 1)),
                ;
            }
            let width = ((regions.size.x.0 as i128) - spent).checked_div_euclid(n as i128).unwrap();
            let shared: &'a Vec<Abs> = backlog;
            regions = Regions {
                size: Axes::new(Abs(width as i64), regions.size.y),
                full: regions.full,
                backlog: shared.as_slice(),
                last: regions.last,
                expand: Axes::new(true, regions.expand.y),
            };
        }
        let expand = regions.expand;
        if !alone {
            regions.expand.y = false;
        }
        FlowLayouter {
            regions,
            expand,
            initial: regions.size,
            last_was_par: false,
            items: Vec::new(),
            pending_tags: Vec::new(),
            pending_floats: Vec::new(),
            has_footnotes: false,
            footnote_gap,
            finished: Vec::new(),
            columns: n,
            column_gutter: gutter,
        }
    }
}

/// Whether finishing regions with force `n` times, each time while the
/// regions' backlog is not used up, takes the layouter from `s` to `t`.
pub open spec fn spec_forced_while_backlog(s: FlowView, n: nat, t: FlowView) -> bool
    decreases n,
{
    if n == 0 {
        t == s
    } else {
        exists|m: FlowView|
            spec_forced_while_backlog(s, (n - 1) as nat, m) && m.regions.backlog.len() > 0
                && spec_finished_region(m, true, t)
    }
}

/// Whether finishing regions with force `n` times, each time while the
/// region holds items, takes the layouter from `s` to `t`.
pub open spec fn spec_forced_while_items(s: FlowView, n: nat, t: FlowView) -> bool
    decreases n,
{
    if n == 0 {
        t == s
    } else {
        exists|m: FlowView|
            spec_forced_while_items(s, (n - 1) as nat, m) && m.items.len() > 0
                && spec_finished_region(m, true, t)
    }
}

/// The states in which finishing the flow `f` finishes its last region:
/// after using up the backlog if the flow expands vertically.
pub open spec fn spec_last_region_state(f: FlowView, m: FlowView) -> bool {
    if f.expand.y {
        exists|n: nat| spec_forced_while_backlog(f, n, m) && m.regions.backlog.len() == 0
    } else {
        m == f
    }
}

/// The states reached while finishing the flow `f` after its last region was
/// finished once.
pub open spec fn spec_after_last_region(f: FlowView, t: FlowView) -> bool {
    exists|m1: FlowView, m2: FlowView, n: nat|
        spec_last_region_state(f, m1) && spec_finished_region(m1, true, m2)
            && spec_forced_while_items(m2, n, t)
}

/// Whether finishing the flow `f` stays in the range of lengths while
/// finishing regions.
pub open spec fn spec_finish_all_fits(f: FlowView) -> bool {
    &&& forall|n: nat, m: FlowView| #[trigger]
        spec_forced_while_backlog(f, n, m) && f.expand.y && m.regions.backlog.len() > 0
            ==> spec_finish_fits(m, true)
    &&& forall|m: FlowView| #[trigger] spec_last_region_state(f, m) ==> spec_finish_fits(m, true)
    &&& forall|t: FlowView| #[trigger]
        spec_after_last_region(f, t) && t.items.len() > 0 ==> spec_finish_fits(t, true)
}

/// Finishing a region with force uses up one height of the backlog, if
/// there is one, and leaves at most as many items and waiting floats as
/// floats waited, one fewer if the region held items and some float got
/// placed.
proof fn lemma_forced_finish(s: FlowView, t: FlowView)
    requires
        spec_finished_region(s, true, t),
    ensures
        s.regions.backlog.len() > 0 ==> t.regions.backlog.len() == s.regions.backlog.len() - 1,
        t.items.len() + t.pending_floats.len() == s.pending_floats.len(),
{
    let (out, m) = choose|out: Frame, m: FlowView|
        spec_closed(s, true, out, m) && spec_replayed(m, s.pending_floats, t);
    lemma_replay_progress(m, s.pending_floats, t);
}

impl<'a> FlowLayouter<'a> {
    /// Finish all regions: with vertical expansion first use up the regions'
    /// backlog, then finish the last region, and then more regions as long
    /// as items remain.
    fn finish_regions(&mut self)
        requires
            spec_finish_all_fits(old(self).view()),
        ensures
            spec_after_last_region(old(self).view(), final(self).view()),
            final(self).view().items.len() == 0,
    {
        let ghost f = self.view();
        if self.expand.y {
            let ghost mut n: nat = 0;
            assert(spec_forced_while_backlog(f, 0, self.view()));
            while self.regions.backlog.len() > 0
                invariant
                    f.expand.y,
                    spec_finish_all_fits(f),
                    spec_forced_while_backlog(f, n, self.view()),
                decreases self.regions.backlog@.len(),
            {
                let ghost before = self.view();
                assert(spec_finish_fits(before, true));
                self.finish_region(true);
                proof {
                    lemma_forced_finish(before, self.view());
                    assert(spec_forced_while_backlog(f, n + 1, self.view()));
                    n = n + 1;
                }
            }
            assert(spec_last_region_state(f, self.view()));
        } else {
            assert(spec_last_region_state(f, self.view()));
        }
        let ghost m1 = self.view();
        assert(spec_finish_fits(m1, true));
        self.finish_region(true);
        let ghost m2 = self.view();
        let ghost mut k: nat = 0;
        assert(spec_forced_while_items(m2, 0, self.view()));
        while self.items.len() > 0
            invariant
                spec_finish_all_fits(f),
                spec_last_region_state(f, m1),
                spec_finished_region(m1, true, m2),
                spec_forced_while_items(m2, k, self.view()),
            decreases self.view().pending_floats.len() + if self.view().items.len() > 0 {
                1int
            } else {
                0int
            },
        {
            let ghost before = self.view();
            assert(spec_after_last_region(f, before));
            assert(spec_finish_fits(before, true));
            self.finish_region(true);
            proof {
                lemma_forced_finish(before, self.view());
                assert(spec_forced_while_items(m2, k + 1, self.view()));
                k = k + 1;
            }
        }
        assert(spec_after_last_region(f, self.view()));
    }
}

/// The frame of the columns of the region with index `j`: a hard frame of
/// the region's width and of height `height`, which grows to the tallest
/// column unless the region expands vertically, with the finished frames of
/// the first `c` columns side by side, from the left or, against the text
/// direction, from the right. The second component is where the next column
/// starts, the third whether everything stayed in the range of lengths.
pub open spec fn spec_stitch_cols(
    frames: Seq<Frame>,
    j: int,
    c: int,
    columns: int,
    width: Abs,
    height: Abs,
    expand_y: bool,
    gutter: int,
    ltr: bool,
) -> (FrameView, int, bool)
    decreases c,
{
    if c <= 0 {
        (
            FrameView {
                size: Axes { x: width, y: height },
                baseline: None,
                items: Seq::empty(),
                kind: FrameKind::Hard,
            },
            0,
            true,
        )
    } else {
        let (out, cur, ok) = spec_stitch_cols(
            frames,
            j,
            c - 1,
            columns,
            width,
            height,
            expand_y,
            gutter,
            ltr,
        );
        let idx = j * columns + (c - 1);
        if idx >= frames.len() {
            (out, cur, ok)
        } else {
            let fr = frames[idx];
            let grown = if expand_y {
                out
            } else {
                FrameView {
                    size: Axes { x: out.size.x, y: Abs(imax(out.size.y.0 as int, height_of(fr)) as i64) },
                    ..out
                }
            };
            let a = width.0 - cur;
            let x = if ltr {
                cur
            } else {
                a - width_of(fr)
            };
            let pos = point_at(x, 0);
            let b = cur + width_of(fr);
            let next = b + gutter;
            (
                spec_push_frame(grown, pos, fr),
                next,
                ok && in_range(a) && in_range(x) && in_range(b) && in_range(next) && (
                spec_should_inline(grown, fr@) ==> spec_translatable(fr@.items, pos)),
            )
        }
    }
}

/// The number of frames that stitching `len` finished column frames into
/// regions gives: one per `columns` frames, as far as the regions go.
pub open spec fn spec_stitch_count(regions: RegionsView, len: int, columns: int) -> int {
    let total = (len + columns - 1) / columns;
    if regions.last is Some {
        total
    } else {
        imin(total, 1 + regions.backlog.len() as int)
    }
}

/// The height the frame of the region with index `j` starts with: the
/// region's height if the regions expand vertically, else zero.
pub open spec fn spec_stitch_height(regions: RegionsView, j: int) -> Abs {
    if regions.expand.y {
        match regions.spec_item(j) {
            Some(size) => size.y,
            None => Abs(0),
        }
    } else {
        Abs(0)
    }
}

/// The frame of the region with index `j` when stitching columns.
pub open spec fn spec_stitch(
    frames: Seq<Frame>,
    j: int,
    regions: RegionsView,
    columns: int,
    gutter: int,
    ltr: bool,
) -> (FrameView, int, bool) {
    spec_stitch_cols(
        frames,
        j,
        columns,
        columns,
        regions.size.x,
        spec_stitch_height(regions, j),
        regions.expand.y,
        gutter,
        ltr,
    )
}

/// The frames of a finished flow: the frames of its regions, or with several
/// columns, the frames of its columns stitched together per region.
pub open spec fn spec_fragment(
    t: FlowView,
    columns: int,
    gutter: int,
    regions: RegionsView,
    ltr: bool,
    r: Seq<Frame>,
) -> bool {
    if columns == 1 {
        r == t.finished
    } else {
        &&& r.len() == spec_stitch_count(regions, t.finished.len() as int, columns)
        &&& forall|j: int|
            0 <= j < r.len() ==> (#[trigger] r[j])@ == spec_stitch(
                t.finished,
                j,
                regions,
                columns,
                gutter,
                ltr,
            ).0
    }
}

/// Whether stitching the finished frames of `t` stays in the range of
/// lengths.
pub open spec fn spec_stitch_fits(
    t: FlowView,
    columns: int,
    gutter: int,
    regions: RegionsView,
    ltr: bool,
) -> bool {
    columns != 1 ==> forall|j: int|
        0 <= j < spec_stitch_count(regions, t.finished.len() as int, columns) ==> #[trigger] spec_stitch(
            t.finished,
            j,
            regions,
            columns,
            gutter,
            ltr,
        ).2
}

/// A prefix of the columns stitches within range if all of them do.
proof fn lemma_stitch_ok_prefix(
    frames: Seq<Frame>,
    j: int,
    c: int,
    k: int,
    columns: int,
    width: Abs,
    height: Abs,
    expand_y: bool,
    gutter: int,
    ltr: bool,
)
    requires
        0 <= k <= c,
        spec_stitch_cols(frames, j, c, columns, width, height, expand_y, gutter, ltr).2,
    ensures
        spec_stitch_cols(frames, j, k, columns, width, height, expand_y, gutter, ltr).2,
    decreases c - k,
{
    if k < c {
        lemma_stitch_ok_prefix(frames, j, c - 1, k, columns, width, height, expand_y, gutter, ltr);
    }
}

/// The number of regions that `iter` hands out is the stitch count.
proof fn lemma_stitch_count(regions: RegionsView, total: int, m: int, len: int, columns: int)
    requires
        columns >= 1,
        total == (len + columns - 1) / columns,
        0 <= m <= total,
        forall|i: int| 0 <= i < m ==> (#[trigger] regions.spec_item(i)) is Some,
        m < total ==> regions.spec_item(m) is None,
    ensures
        m == spec_stitch_count(regions, len, columns),
{
    if regions.last is Some {
        if m < total {
            assert(regions.spec_item(m) is Some);
        }
    } else {
        if m < total {
            if m <= regions.backlog.len() {
                assert(regions.spec_item(m) is Some);
            }
        }
        if m > 1 + regions.backlog.len() {
            assert(regions.spec_item(1 + regions.backlog.len() as int) is None);
        }
    }
}

/// Whether finishing the flow `f` into the frames for `regions` stays in the
/// range of lengths.
pub open spec fn spec_flow_finish_fits(f: FlowView, regions: RegionsView, ltr: bool) -> bool {
    &&& f.columns >= 1
    &&& spec_finish_all_fits(f)
    &&& forall|t: FlowView| #[trigger]
        spec_after_last_region(f, t) && t.items.len() == 0 ==> spec_stitch_fits(
            t,
            f.columns as int,
            f.column_gutter.0 as int,
            regions,
            ltr,
        )
}

impl<'a> FlowLayouter<'a> {
    /// Finish layouting and return the resulting frames: with several
    /// columns, the columns of each of the `regions` are stitched together,
    /// left to right, or right to left against the text direction `dir`.
    pub fn finish(self, regions: &Regions, dir: Dir) -> (r: Vec<Frame>)
        requires
            spec_flow_finish_fits(self.view(), regions@, dir == Dir::LTR),
        ensures
            exists|t: FlowView|
                spec_after_last_region(self.view(), t) && t.items.len() == 0 && spec_fragment(
                    t,
                    self.columns as int,
                    self.column_gutter.0 as int,
                    regions@,
                    dir == Dir::LTR,
                    r@,
                ),
    {
        let ghost f = self.view();
        let columns = self.columns;
        let gutter = self.column_gutter;
        let mut this = self;
        this.finish_regions();
        let ghost t = this.view();
        assert(spec_stitch_fits(t, columns as int, gutter.0 as int, regions@, dir == Dir::LTR));
        if columns == 1 {
            return this.finished;
        }
        let ltr = match dir {
            Dir::LTR => true,
            _ => false,
        };
        assert(ltr == (dir == Dir::LTR));
        let mut frames = this.finished;
        let ghost all = frames@;
        let len = frames.len();
        proof {
            assert(len / columns < usize::MAX) by (nonlinear_arith)
                requires
                    columns >= 2,
                    len <= usize::MAX,
            ;
        }
        let total = len / columns + if len % columns == 0 {
            0
        } else {
            1
        };
        proof {
            assert(total == (len + columns - 1) / (columns as int)) by (nonlinear_arith)
                requires
                    columns >= 2,
                    total == len / columns + if len % columns == 0 {
                        0int
                    } else {
                        1int
                    },
            ;
        }
        let sizes = regions.iter(total);
        proof {
            assert forall|i: int| 0 <= i < sizes@.len() implies (#[trigger] regions@.spec_item(
                i,
            )) is Some by {
                assert(Some(sizes@[i]) == regions@.spec_item(i));
            }
            lemma_stitch_count(regions@, total as int, sizes@.len() as int, len as int, columns as int);
        }
        let ghost count = sizes@.len() as int;
        let mut collected: Vec<Frame> = Vec::new();
        let mut idx: usize = 0;
        let mut j: usize = 0;
        while j < sizes.len()
            invariant
                columns >= 2,
                count == sizes@.len(),
                count == spec_stitch_count(regions@, all.len() as int, columns as int),
                count <= total,
                total == (len + columns - 1) / (columns as int),
                len == all.len(),
                frames@.len() == len,
                j <= count,
                idx == imin(j * columns, len as int),
                forall|k: int| idx <= k < len ==> #[trigger] frames@[k] == all[k],
                forall|q: int| 0 <= q < count ==> Some(#[trigger] sizes@[q]) == regions@.spec_item(q),
                forall|q: int|
                    0 <= q < count ==> #[trigger] spec_stitch(
                        all,
                        q,
                        regions@,
                        columns as int,
                        gutter.0 as int,
                        ltr,
                    ).2,
                collected@.len() == j,
                forall|q: int|
                    0 <= q < j ==> (#[trigger] collected@[q])@ == spec_stitch(
                        all,
                        q,
                        regions@,
                        columns as int,
                        gutter.0 as int,
                        ltr,
                    ).0,
            decreases count - j,
        {
            let height = if regions.expand.y {
                sizes[j].y
            } else {
                Abs::zero()
            };
            assert(height == spec_stitch_height(regions@, j as int));
            let mut output = Frame::hard(Axes::new(regions.size.x, height));
            let mut cursor = Abs::zero();
            let ghost width = regions@.size.x;
            let ghost expand_y = regions@.expand.y;
            assert(spec_stitch(all, j as int, regions@, columns as int, gutter.0 as int, ltr).2);
            let mut c: usize = 0;
            while c < columns
                invariant
                    columns >= 2,
                    len == all.len(),
                    frames@.len() == len,
                    c <= columns,
                    width == regions@.size.x,
                    expand_y == regions@.expand.y,
                    idx == imin(j * columns + c, len as int),
                    forall|k: int| idx <= k < len ==> #[trigger] frames@[k] == all[k],
                    spec_stitch_cols(
                        all,
                        j as int,
                        columns as int,
                        columns as int,
                        width,
                        height,
                        expand_y,
                        gutter.0 as int,
                        ltr,
                    ).2,
                    (output@, cursor.0 as int, true) == spec_stitch_cols(
                        all,
                        j as int,
                        c as int,
                        columns as int,
                        width,
                        height,
                        expand_y,
                        gutter.0 as int,
                        ltr,
                    ),
                decreases columns - c,
            {
                proof {
                    lemma_stitch_ok_prefix(
                        all,
                        j as int,
                        columns as int,
                        c + 1,
                        columns as int,
                        width,
                        height,
                        expand_y,
                        gutter.0 as int,
                        ltr,
                    );
                }
                if idx < len {
                    let mut frame = Frame::soft(Axes::zero());
                    std::mem::swap(&mut frame, &mut frames[idx]);
                    if !regions.expand.y {
                        let size = output.size();
                        output.set_size(Axes::new(size.x, size.y.max(frame.height())));
                    }
                    let w = frame.width();
                    let x = if ltr {
                        cursor
                    } else {
                        regions.size.x.minus(cursor).minus(w)
                    };
                    output.push_frame(Point::with_x(x), frame);
                    cursor = cursor.plus(w).plus(gutter);
                    idx += 1;
                }
                c += 1;
            }
            collected.push(output);
            proof {
                assert(j * columns + columns == (j + 1) * columns) by (nonlinear_arith);
            }
            j += 1;
        }
        collected
    }
}


/// How the content is balanced across the available columns.
#[derive(Clone, Copy, PartialEq, Eq, Structural, Hash, Debug)]
pub enum Mode {
    /// Eagerly place items from first to last column.
    PackStart,
    /// Attempt equally balancing items across available columns.
    Even,
}


/// The height of the `i`-th line, or nothing if there is none.
pub open spec fn spec_line_height(lines: Seq<Frame>, i: int) -> int {
    if 0 <= i < lines.len() {
        height_of(lines[i])
    } else {
        0
    }
}

/// Whether orphans are prevented: there are at least two lines and the
/// second one is not empty.
pub open spec fn spec_prevent_orphans(lines: Seq<Frame>, orphans: bool) -> bool {
    orphans && lines.len() >= 2 && lines[1]@.items.len() != 0
}

/// Whether widows are prevented: there are at least two lines and the
/// second to last one is not empty.
pub open spec fn spec_prevent_widows(lines: Seq<Frame>, widows: bool) -> bool {
    widows && lines.len() >= 2 && lines[lines.len() - 2]@.items.len() != 0
}

/// The space that the `i`-th line of a paragraph needs in a region: all
/// three lines at the first of just three when both orphans and widows are
/// prevented, the first two lines at the first when orphans are, the last
/// two lines at the second to last when widows are, and else just the line.
pub open spec fn spec_line_need(lines: Seq<Frame>, leading: Abs, orphans: bool, widows: bool, i: int) -> int {
    let len = lines.len() as int;
    let po = spec_prevent_orphans(lines, orphans);
    let pw = spec_prevent_widows(lines, widows);
    let l = leading.0 as int;
    if len == 3 && po && pw && i == 0 {
        spec_line_height(lines, 0) + l + spec_line_height(lines, 1) + l + spec_line_height(lines, len - 1)
    } else if po && i == 0 {
        spec_line_height(lines, 0) + l + spec_line_height(lines, 1)
    } else if pw && i >= 2 && i + 2 == len {
        spec_line_height(lines, len - 2) + l + spec_line_height(lines, len - 1)
    } else {
        spec_line_height(lines, i)
    }
}

/// Whether the space lines need stays in the range of lengths.
pub open spec fn spec_line_needs_fit(lines: Seq<Frame>, leading: Abs) -> bool {
    let len = lines.len() as int;
    let l = leading.0 as int;
    let h0 = spec_line_height(lines, 0);
    let h1 = spec_line_height(lines, 1);
    let hl = spec_line_height(lines, len - 1);
    let hp = spec_line_height(lines, len - 2);
    &&& in_range(h0 + l)
    &&& in_range(h0 + l + h1)
    &&& in_range(h0 + l + h1 + l)
    &&& in_range(h0 + l + h1 + l + hl)
    &&& in_range(hp + l)
    &&& in_range(hp + l + hl)
}

/// The space that each line of a paragraph needs in a region to go there,
/// given the leading between lines and whether orphans and widows are
/// prevented.
pub fn line_needs(lines: &Vec<Frame>, leading: Abs, orphans: bool, widows: bool) -> (r: Vec<Abs>)
    requires
        spec_line_needs_fit(lines@, leading),
    ensures
        r@.len() == lines@.len(),
        forall|i: int|
            0 <= i < r@.len() ==> #[trigger] r@[i].0 == spec_line_need(lines@, leading, orphans, widows, i),
{
    let len = lines.len();
    let po = orphans && len >= 2 && !lines[1].is_empty();
    let pw = widows && len >= 2 && !lines[len - 2].is_empty();
    let pa = len == 3 && po && pw;
    let front_1 = if len > 0 {
        lines[0].height()
    } else {
        Abs::zero()
    };
    let front_2 = if len > 1 {
        lines[1].height()
    } else {
        Abs::zero()
    };
    let back_2 = if len >= 2 {
        lines[len - 2].height()
    } else if len > 0 {
        lines[0].height()
    } else {
        Abs::zero()
    };
    let back_1 = if len >= 1 {
        lines[len - 1].height()
    } else {
        Abs::zero()
    };
    let mut out: Vec<Abs> = Vec::new();
    let mut i: usize = 0;
    while i < len
        invariant
            i <= len,
            len == lines@.len(),
            po == spec_prevent_orphans(lines@, orphans),
            pw == spec_prevent_widows(lines@, widows),
            pa == (len == 3 && po && pw),
            front_1.0 == spec_line_height(lines@, 0),
            front_2.0 == spec_line_height(lines@, 1),
            len >= 2 ==> back_2.0 == spec_line_height(lines@, len - 2),
            back_1.0 == spec_line_height(lines@, len - 1),
            spec_line_needs_fit(lines@, leading),
            out@.len() == i,
            forall|k: int|
                0 <= k < i ==> #[trigger] out@[k].0 == spec_line_need(lines@, leading, orphans, widows, k),
        decreases len - i,
    {
        let need = if pa && i == 0 {
            front_1.plus(leading).plus(front_2).plus(leading).plus(back_1)
        } else if po && i == 0 {
            front_1.plus(leading).plus(front_2)
        } else if pw && i >= 2 && len >= 2 && i == len - 2 {
            back_2.plus(leading).plus(back_1)
        } else {
            lines[i].height()
        };
        out.push(need);
        i += 1;
    }
    out
}


/// Where placed content goes horizontally: where its alignment says, at
/// the start if that says nothing horizontally, and in the middle without
/// an alignment.
pub open spec fn spec_place_x_align(alignment: Smart<Alignment>, dir: Dir) -> FixedAlignment {
    match alignment {
        Smart::Auto => FixedAlignment::Center,
        Smart::Custom(a) => match a.spec_x() {
            Some(h) => h.spec_fix(dir),
            None => HAlignment::Start.spec_fix(dir),
        },
    }
}

/// Where placed content goes vertically: automatic without an alignment,
/// and else where its alignment says, if it says anything vertically.
pub open spec fn spec_place_y_align(alignment: Smart<Alignment>) -> Smart<Option<FixedAlignment>> {
    match alignment {
        Smart::Auto => Smart::Auto,
        Smart::Custom(a) => Smart::Custom(
            match a.spec_y() {
                Some(v) => Some(v.spec_fix()),
                None => None,
            },
        ),
    }
}

/// The flow item of placed content with the frame `frame`.
pub open spec fn spec_placed_item(elem: PlaceElem, frame: Frame, font_size: Abs, dir: Dir) -> FlowItem {
    FlowItem::Placed {
        frame,
        x_align: spec_place_x_align(elem.alignment, dir),
        y_align: spec_place_y_align(elem.alignment),
        delta: Axes { x: elem.dx.spec_resolve(font_size), y: elem.dy.spec_resolve(font_size) },
        float: elem.float,
        clearance: Abs(elem.clearance.spec_at(font_size) as i64),
    }
}

/// Whether handling placed content stays in the range of lengths.
pub open spec fn spec_place_fits(
    s: FlowView,
    elem: PlaceElem,
    frame: Frame,
    font_size: Abs,
    dir: Dir,
    styles: StyleChain,
) -> bool {
    &&& elem.clearance.spec_at_fits(font_size)
    &&& elem.dx.abs.spec_at_fits(font_size)
    &&& elem.dy.abs.spec_at_fits(font_size)
    &&& forall|f: Frame| #[trigger]
        spec_post_processed(frame@, styles.dests@, styles.hidden, f@) ==> spec_item_fits(
            s,
            spec_placed_item(elem, f, font_size, dir),
        )
}

impl<'a> FlowLayouter<'a> {
    /// Handle placed content, laid out into a region of the base size: its
    /// frame is post-processed with the styles, and it is placed as its
    /// alignment, displacement, floating and clearance say, resolved at the
    /// font size and in the text direction `dir`.
    pub fn handle_place(&mut self, elem: &PlaceElem, frame: Frame, font_size: Abs, dir: Dir, styles: StyleChain)
        requires
            spec_place_fits(old(self).view(), *elem, frame, font_size, dir, styles),
        ensures
            exists|f: Frame|
                spec_post_processed(frame@, styles.dests@, styles.hidden, f@) && spec_item_handled(
                    old(self).view(),
                    spec_placed_item(*elem, f, font_size, dir),
                    final(self).view(),
                ),
    {
        let ghost dests = styles.dests@;
        let ghost hidden = styles.hidden;
        let float = elem.float;
        let clearance = elem.clearance.at(font_size);
        let x_align = match elem.alignment {
            Smart::Auto => FixedAlignment::Center,
            Smart::Custom(a) => match a.x() {
                Some(h) => h.fix(dir),
                None => HAlignment::Start.fix(dir),
            },
        };
        let y_align = match elem.alignment {
            Smart::Auto => Smart::Auto,
            Smart::Custom(a) => Smart::Custom(
                match a.y() {
                    Some(v) => Some(v.fix()),
                    None => None,
                },
            ),
        };
        let delta = Axes::new(elem.dx.resolve(font_size), elem.dy.resolve(font_size));
        let mut frame = frame;
        frame.post_process(styles);
        let ghost f = frame;
        let item = FlowItem::Placed { frame, x_align, y_align, delta, float, clearance };
        assert(item == spec_placed_item(*elem, f, font_size, dir));
        self.handle_item(item);
    }
}


/// The layouter and a frame after the pending tags of the layouter are
/// attached to the frame in the background, if both hold something.
pub open spec fn spec_drained(s: FlowView, f: FrameView) -> (FlowView, FrameView) {
    if s.pending_tags.len() > 0 && f.items.len() > 0 {
        (
            FlowView { pending_tags: Seq::empty(), ..s },
            FrameView { items: spec_tag_items(s.pending_tags, origin()) + f.items, ..f },
        )
    } else {
        (s, f)
    }
}

/// The flow item of a frame of a block.
pub open spec fn spec_block_item(f: Frame, align: Axes<FixedAlignment>, sticky: bool) -> FlowItem {
    FlowItem::Frame { frame: f, align, sticky, movable: false }
}

/// Whether adding a frame of a block takes the layouter from `s` to `t`:
/// every frame but the first finishes the region before it, the pending
/// tags go to the frame, which is post-processed with the block's styles
/// and handled as an item.
pub open spec fn spec_block_frame_step(
    s: FlowView,
    frame: Frame,
    index: nat,
    align: Axes<FixedAlignment>,
    sticky: bool,
    styles: StyleChain,
    t: FlowView,
) -> bool {
    exists|m: FlowView, f: Frame|
        {
            &&& if index == 0 {
                m == s
            } else {
                spec_finished_region(s, false, m)
            }
            &&& spec_post_processed(spec_drained(m, frame@).1, styles.dests@, styles.hidden, f@)
            &&& spec_item_handled(spec_drained(m, frame@).0, spec_block_item(f, align, sticky), t)
        }
}

/// Whether adding a frame of a block stays in the range of lengths.
pub open spec fn spec_block_step_fits(
    s: FlowView,
    frame: Frame,
    index: nat,
    align: Axes<FixedAlignment>,
    sticky: bool,
    styles: StyleChain,
) -> bool {
    &&& (index != 0 ==> spec_finish_fits(s, false))
    &&& forall|m: FlowView, f: Frame|
        (if index == 0 {
            m == s
        } else {
            spec_finished_region(s, false, m)
        }) && #[trigger] spec_post_processed(
            spec_drained(m, frame@).1,
            styles.dests@,
            styles.hidden,
            f@,
        ) ==> spec_item_fits(spec_drained(m, frame@).0, spec_block_item(f, align, sticky))
}

/// Whether adding the frames of a block one after the other takes the
/// layouter from `s` to `t`.
pub open spec fn spec_block_handled(
    s: FlowView,
    frames: Seq<Frame>,
    align: Axes<FixedAlignment>,
    sticky: bool,
    styles: StyleChain,
    t: FlowView,
) -> bool
    decreases frames.len(),
{
    if frames.len() == 0 {
        t == s
    } else {
        exists|m: FlowView|
            #![trigger spec_block_frame_step(m, frames.last(), frames.drop_last().len(), align, sticky, styles, t)]
            spec_block_handled(s, frames.drop_last(), align, sticky, styles, m)
                && spec_block_frame_step(m, frames.last(), frames.drop_last().len(), align, sticky, styles, t)
    }
}

/// Whether adding the frames of a block stays in the range of lengths.
pub open spec fn spec_block_fits(
    s: FlowView,
    frames: Seq<Frame>,
    align: Axes<FixedAlignment>,
    sticky: bool,
    styles: StyleChain,
) -> bool
    decreases frames.len(),
{
    frames.len() == 0 || {
        &&& spec_block_fits(s, frames.drop_last(), align, sticky, styles)
        &&& forall|m: FlowView| #[trigger]
            spec_block_handled(s, frames.drop_last(), align, sticky, styles, m)
                ==> spec_block_step_fits(m, frames.last(), frames.drop_last().len(), align, sticky, styles)
    }
}

/// Adding a prefix of the frames fits if adding all of them does.
proof fn lemma_block_fits_prefix(
    s: FlowView,
    frames: Seq<Frame>,
    align: Axes<FixedAlignment>,
    sticky: bool,
    styles: StyleChain,
    k: int,
)
    requires
        0 <= k <= frames.len(),
        spec_block_fits(s, frames, align, sticky, styles),
    ensures
        spec_block_fits(s, frames.take(k), align, sticky, styles),
    decreases frames.len() - k,
{
    if k < frames.len() {
        assert(frames.take(k + 1).drop_last() =~= frames.take(k));
        lemma_block_fits_prefix(s, frames, align, sticky, styles, k + 1);
    } else {
        assert(frames.take(k) =~= frames);
    }
}

/// Adding one more frame of a block extends what adding the frames before
/// it gave.
proof fn lemma_block_handled_step(
    s0: FlowView,
    frames: Seq<Frame>,
    i: int,
    align: Axes<FixedAlignment>,
    sticky: bool,
    styles: StyleChain,
    before: FlowView,
    after: FlowView,
)
    requires
        0 <= i < frames.len(),
        spec_block_handled(s0, frames.take(i), align, sticky, styles, before),
        spec_block_frame_step(before, frames[i], i as nat, align, sticky, styles, after),
    ensures
        spec_block_handled(s0, frames.take(i + 1), align, sticky, styles, after),
{
    let pre = frames.take(i + 1);
    assert(pre.drop_last() =~= frames.take(i));
    assert(pre.last() == frames[i]);
    assert(pre.drop_last().len() == i);
    assert(spec_block_frame_step(before, pre.last(), pre.drop_last().len(), align, sticky, styles, after));
    assert(spec_block_handled(s0, pre.drop_last(), align, sticky, styles, before));
}

impl<'a> FlowLayouter<'a> {
    /// Finish the region first if it is full, before a block is laid out
    /// into the regions.
    pub fn finish_if_full(&mut self)
        requires
            old(self).view().regions.size.y.0 <= 0 && old(self).view().regions.spec_may_progress()
                ==> spec_finish_fits(old(self).view(), false),
        ensures
            old(self).view().regions.size.y.0 <= 0 && old(self).view().regions.spec_may_progress()
                ==> spec_finished_region(old(self).view(), false, final(self).view()),
            !(old(self).view().regions.size.y.0 <= 0 && old(self).view().regions.spec_may_progress())
                ==> final(self).view() == old(self).view(),
    {
        if self.regions.is_full() {
            self.finish_region(false);
        }
    }

    /// Handle the frames of a block laid out into the regions (after
    /// [`FlowLayouter::finish_if_full`]): every frame but the first starts a
    /// new region; each gets the pending tags, is post-processed with the
    /// block's styles and goes into the flow with the block's alignment and
    /// stickiness.
    pub fn handle_block(
        &mut self,
        fragment: Vec<Frame>,
        align: Axes<FixedAlignment>,
        sticky: bool,
        styles: StyleChain,
    )
        requires
            spec_block_fits(old(self).view(), fragment@, align, sticky, styles),
        ensures
            exists|t: FlowView|
                spec_block_handled(old(self).view(), fragment@, align, sticky, styles, t)
                    && final(self).view() == (FlowView { last_was_par: false, ..t }),
    {
        let ghost s0 = self.view();
        let ghost frames = fragment@;
        let n = fragment.len();
        let mut rest = fragment;
        let mut i: usize = 0;
        assert(frames.take(0) =~= Seq::<Frame>::empty());
        while i < n
            invariant
                i <= n,
                n == frames.len(),
                rest@ == frames.subrange(i as int, n as int),
                spec_block_fits(s0, frames, align, sticky, styles),
                spec_block_handled(s0, frames.take(i as int), align, sticky, styles, self.view()),
            decreases n - i,
        {
            let ghost before = self.view();
            proof {
                lemma_block_fits_prefix(s0, frames, align, sticky, styles, i + 1);
                assert(frames.take(i + 1).drop_last() =~= frames.take(i as int));
                assert(frames.take(i + 1).last() == frames[i as int]);
            }
            let mut frame = rest.remove(0);
            assert(frame == frames[i as int]);
            assert(frames.take(i + 1).drop_last().len() == i);
            assert(spec_block_step_fits(before, frame, i as nat, align, sticky, styles));
            if i > 0 {
                self.finish_region(false);
            }
            let ghost m = self.view();
            self.drain_tag(&mut frame);
            assert(self.view() == spec_drained(m, frames[i as int]@).0);
            assert(frame@ == spec_drained(m, frames[i as int]@).1);
            frame.post_process(styles.duplicate());
            let ghost f = frame;
            assert(spec_post_processed(spec_drained(m, frames[i as int]@).1, styles.dests@, styles.hidden, f@));
            self.handle_item(FlowItem::Frame { frame, align, sticky, movable: false });
            proof {
                assert(spec_block_frame_step(before, frames[i as int], i as nat, align, sticky, styles, self.view()));
                lemma_block_handled_step(s0, frames, i as int, align, sticky, styles, before, self.view());
                assert(rest@ =~= frames.subrange(i + 1, n as int));
            }
            i += 1;
        }
        assert(frames.take(n as int) =~= frames);
        self.last_was_par = false;
    }
}


/// Finishing a region keeps the last height and adds neither heights to the
/// backlog nor floats to the queue.
proof fn lemma_finished_keeps(x: FlowView, y: FlowView)
    requires
        spec_finished_region(x, false, y),
    ensures
        y.regions.backlog.len() <= x.regions.backlog.len(),
        y.regions.last == x.regions.last,
        y.pending_floats.len() <= x.pending_floats.len(),
{
    if !spec_only_out_of_flow(x.items) {
        let (out, m) = choose|out: Frame, m: FlowView|
            spec_closed(x, false, out, m) && spec_replayed(m, x.pending_floats, y);
        lemma_replay_progress(m, x.pending_floats, y);
    }
}

/// Skipping regions keeps the last height and adds neither heights to the
/// backlog nor floats to the queue.
proof fn lemma_skipped_keeps(s: FlowView, h: int, n: nat, t: FlowView)
    requires
        spec_skipped(s, h, n, t),
    ensures
        t.regions.backlog.len() <= s.regions.backlog.len(),
        t.regions.last == s.regions.last,
        t.pending_floats.len() <= s.pending_floats.len(),
    decreases n,
{
    if n > 0 {
        let m = choose|m: FlowView|
            spec_skipped(s, h, (n - 1) as nat, m) && spec_must_skip(m, h) && spec_finished_region(
                m,
                false,
                t,
            );
        lemma_skipped_keeps(s, h, (n - 1) as nat, m);
        lemma_finished_keeps(m, t);
    }
}

/// Handling spacing or frames keeps the last height and adds neither
/// heights to the backlog nor floats to the queue.
proof fn lemma_all_handled_keeps(s: FlowView, items: Seq<FlowItem>, t: FlowView)
    requires
        spec_all_handled(s, items, t),
        forall|k: int| 0 <= k < items.len() ==> #[trigger] items[k] is Absolute || items[k] is Frame,
    ensures
        t.regions.backlog.len() <= s.regions.backlog.len(),
        t.regions.last == s.regions.last,
        t.pending_floats.len() <= s.pending_floats.len(),
    decreases items.len(),
{
    if items.len() > 0 {
        let m = choose|m: FlowView|
            spec_all_handled(s, items.drop_last(), m) && spec_item_handled(m, items.last(), t);
        assert forall|k: int| 0 <= k < items.drop_last().len() implies #[trigger] items.drop_last()[k] is Absolute
            || items.drop_last()[k] is Frame by {
            assert(items.drop_last()[k] == items[k]);
        }
        lemma_all_handled_keeps(s, items.drop_last(), m);
        assert(items.last() == items[items.len() - 1]);
        match items.last() {
            FlowItem::Frame { frame, .. } => {
                let (n, q) = choose|n: nat, q: FlowView|
                    spec_skipped(m, height_of(frame), n, q) && !spec_must_skip(q, height_of(frame))
                        && t == spec_taken(q, height_of(frame), items.last());
                lemma_skipped_keeps(m, height_of(frame), n, q);
            },
            _ => {},
        }
    }
}

/// The items from the sticky start on are spacing or frames.
proof fn lemma_sticky_kinds(items: Seq<FlowItem>, n: int, sticky: int)
    requires
        0 <= n <= items.len(),
        n <= sticky <= items.len(),
        forall|k: int| sticky <= k < items.len() ==> #[trigger] items[k] is Absolute || items[k] is Frame,
        forall|k: int| n <= k < sticky ==> #[trigger] items[k] is Absolute || items[k] is Frame,
    ensures
        forall|k: int|
            spec_sticky_scan(items, n, sticky) <= k < items.len() ==> #[trigger] items[k] is Absolute
                || items[k] is Frame,
    decreases n,
{
    if n > 0 {
        match items[n - 1] {
            FlowItem::Absolute(_, _) => {
                lemma_sticky_kinds(items, n - 1, sticky);
            },
            FlowItem::Frame { sticky: true, .. } => {
                lemma_sticky_kinds(items, n - 1, n - 1);
            },
            _ => {},
        }
    }
}

/// Whether finishing the region of `s` while moving its sticky items on
/// takes the layouter to `t`, and `r` says whether it went into a last
/// region.
pub open spec fn spec_migrated(s: FlowView, t: FlowView, r: bool) -> bool {
    exists|m: FlowView|
        {
            &&& spec_finished_region(spec_without_sticky(s), false, m)
            &&& r == m.regions.spec_in_last()
            &&& spec_all_handled(m, s.items.skip(spec_sticky_start(s.items)), t)
        }
}

/// Moving on from a region that is not the last one, into one that is not
/// either, decreases the measure.
proof fn lemma_migration_decreases(s: FlowView, t: FlowView)
    requires
        !s.regions.spec_in_last(),
        spec_migrated(s, t, false),
    ensures
        spec_skip_measure(t).0 < spec_skip_measure(s).0 || (spec_skip_measure(t).0
            == spec_skip_measure(s).0 && spec_skip_measure(t).1 < spec_skip_measure(s).1),
{
    let m = choose|m: FlowView|
        {
            &&& spec_finished_region(spec_without_sticky(s), false, m)
            &&& false == m.regions.spec_in_last()
            &&& spec_all_handled(m, s.items.skip(spec_sticky_start(s.items)), t)
        };
    let w = spec_without_sticky(s);
    lemma_finish_decreases(w, m);
    lemma_sticky_scan_bounds(s.items, s.items.len() as int, s.items.len() as int);
    lemma_sticky_kinds(s.items, s.items.len() as int, s.items.len() as int);
    let carry = s.items.skip(spec_sticky_start(s.items));
    assert forall|k: int| 0 <= k < carry.len() implies #[trigger] carry[k] is Absolute || carry[k] is Frame by {
        assert(carry[k] == s.items[spec_sticky_start(s.items) + k]);
    }
    lemma_all_handled_keeps(m, carry, t);
}


/// Whether moving on `n` times, each time from a region that a line of
/// height `h` does not fit and that is not the last one, into one that is
/// not the last one either, takes the layouter from `s` to `t`.
pub open spec fn spec_deferred(s: FlowView, h: int, n: nat, t: FlowView) -> bool
    decreases n,
{
    if n == 0 {
        t == s
    } else {
        exists|m: FlowView|
            #![trigger spec_migrated(m, t, false)]
            spec_deferred(s, h, (n - 1) as nat, m) && spec_must_skip(m, h) && spec_migrated(m, t, false)
    }
}

/// Whether deferring a paragraph until its first line of height `h` fits
/// takes the layouter from `s` to `t`: regions are finished, moving their
/// sticky items on, while the line does not fit and the region is not the
/// last one, and at most until a last region is reached.
pub open spec fn spec_par_deferred(s: FlowView, h: int, t: FlowView) -> bool {
    exists|n: nat, m: FlowView|
        spec_deferred(s, h, n, m) && if spec_must_skip(m, h) {
            spec_migrated(m, t, true)
        } else {
            t == m
        }
}

/// Whether deferring a paragraph stays in the range of lengths.
pub open spec fn spec_defer_fits(s: FlowView, h: int) -> bool {
    forall|n: nat, m: FlowView| #[trigger]
        spec_deferred(s, h, n, m) && spec_must_skip(m, h) ==> spec_migration_fits(m)
}

/// Whether a line that needs `need` moves on to the next region: the
/// region is not the last one, the line does not fit it, and it fits the
/// next region.
pub open spec fn spec_par_advance(s: FlowView, need: int) -> bool {
    &&& !s.regions.spec_in_last()
    &&& !(need <= s.regions.size.y.0)
    &&& s.regions.spec_item(1) matches Some(r) && need <= r.y.0
}

/// The flow item of a line of a paragraph.
pub open spec fn spec_line_item(f: Frame, align: Axes<FixedAlignment>) -> FlowItem {
    FlowItem::Frame { frame: f, align, sticky: false, movable: true }
}

/// The layouter `a` before the `index`-th line: after the leading, unless
/// it is the first line.
pub open spec fn spec_par_leading(s: FlowView, index: nat, leading: Abs, a: FlowView) -> bool {
    if index == 0 {
        a == s
    } else {
        spec_item_handled(s, FlowItem::Absolute(leading, true), a)
    }
}

/// The layouter `b` after moving on to the next region if the line needs
/// to.
pub open spec fn spec_par_moved(a: FlowView, need: int, b: FlowView) -> bool {
    if spec_par_advance(a, need) {
        spec_finished_region(a, false, b)
    } else {
        b == a
    }
}

/// Whether adding the `index`-th line of a paragraph takes the layouter
/// from `s` to `t`: weak leading before every line but the first, a move to
/// the next region when the space the line needs is only there, the
/// pending tags into the line, and the line as a movable frame.
pub open spec fn spec_par_line_step(
    s: FlowView,
    lines: Seq<Frame>,
    index: nat,
    leading: Abs,
    align: Axes<FixedAlignment>,
    orphans: bool,
    widows: bool,
    t: FlowView,
) -> bool {
    let need = spec_line_need(lines, leading, orphans, widows, index as int);
    exists|a: FlowView, b: FlowView, f: Frame|
        {
            &&& spec_par_leading(s, index, leading, a)
            &&& spec_par_moved(a, need, b)
            &&& f@ == spec_drained(b, lines[index as int]@).1
            &&& spec_item_handled(spec_drained(b, lines[index as int]@).0, spec_line_item(f, align), t)
        }
}

/// Whether adding the `index`-th line of a paragraph stays in the range of
/// lengths.
pub open spec fn spec_par_line_fits(
    s: FlowView,
    lines: Seq<Frame>,
    index: nat,
    leading: Abs,
    align: Axes<FixedAlignment>,
    orphans: bool,
    widows: bool,
) -> bool {
    let need = spec_line_need(lines, leading, orphans, widows, index as int);
    &&& (index != 0 ==> spec_item_fits(s, FlowItem::Absolute(leading, true)))
    &&& forall|a: FlowView| #[trigger]
        spec_par_leading(s, index, leading, a) ==> (spec_par_advance(a, need) ==> spec_finish_fits(
            a,
            false,
        ))
    &&& forall|a: FlowView, b: FlowView, f: Frame|
        #![trigger spec_par_leading(s, index, leading, a), spec_item_fits(spec_drained(b, lines[index as int]@).0, spec_line_item(f, align))]
        spec_par_leading(s, index, leading, a) && spec_par_moved(a, need, b) && f@ == spec_drained(
            b,
            lines[index as int]@,
        ).1 ==> spec_item_fits(spec_drained(b, lines[index as int]@).0, spec_line_item(f, align))
}

/// Whether adding the lines of `prefix`, the first lines of `lines`, takes
/// the layouter from `s` to `t`.
pub open spec fn spec_par_lines(
    s: FlowView,
    lines: Seq<Frame>,
    prefix: Seq<Frame>,
    leading: Abs,
    align: Axes<FixedAlignment>,
    orphans: bool,
    widows: bool,
    t: FlowView,
) -> bool
    decreases prefix.len(),
{
    if prefix.len() == 0 {
        t == s
    } else {
        exists|m: FlowView|
            #![trigger spec_par_line_step(m, lines, prefix.drop_last().len(), leading, align, orphans, widows, t)]
            spec_par_lines(s, lines, prefix.drop_last(), leading, align, orphans, widows, m)
                && spec_par_line_step(m, lines, prefix.drop_last().len(), leading, align, orphans, widows, t)
    }
}

/// Whether adding the lines of `prefix` stays in the range of lengths.
pub open spec fn spec_par_lines_fit(
    s: FlowView,
    lines: Seq<Frame>,
    prefix: Seq<Frame>,
    leading: Abs,
    align: Axes<FixedAlignment>,
    orphans: bool,
    widows: bool,
) -> bool
    decreases prefix.len(),
{
    prefix.len() == 0 || {
        &&& spec_par_lines_fit(s, lines, prefix.drop_last(), leading, align, orphans, widows)
        &&& forall|m: FlowView| #[trigger]
            spec_par_lines(s, lines, prefix.drop_last(), leading, align, orphans, widows, m)
                ==> spec_par_line_fits(m, lines, prefix.drop_last().len(), leading, align, orphans, widows)
    }
}

/// Adding a prefix of the lines fits if adding more of them does.
proof fn lemma_par_lines_fit_prefix(
    s: FlowView,
    lines: Seq<Frame>,
    leading: Abs,
    align: Axes<FixedAlignment>,
    orphans: bool,
    widows: bool,
    k: int,
    n: int,
)
    requires
        0 <= k <= n <= lines.len(),
        spec_par_lines_fit(s, lines, lines.take(n), leading, align, orphans, widows),
    ensures
        spec_par_lines_fit(s, lines, lines.take(k), leading, align, orphans, widows),
    decreases n - k,
{
    if k < n {
        assert(lines.take(n).drop_last() =~= lines.take(n - 1));
        lemma_par_lines_fit_prefix(s, lines, leading, align, orphans, widows, k, n - 1);
    }
}

/// Adding one more line extends what adding the lines before it gave.
proof fn lemma_par_lines_step(
    s: FlowView,
    lines: Seq<Frame>,
    i: int,
    leading: Abs,
    align: Axes<FixedAlignment>,
    orphans: bool,
    widows: bool,
    before: FlowView,
    after: FlowView,
)
    requires
        0 <= i < lines.len(),
        spec_par_lines(s, lines, lines.take(i), leading, align, orphans, widows, before),
        spec_par_line_step(before, lines, i as nat, leading, align, orphans, widows, after),
    ensures
        spec_par_lines(s, lines, lines.take(i + 1), leading, align, orphans, widows, after),
{
    let pre = lines.take(i + 1);
    assert(pre.drop_last() =~= lines.take(i));
    assert(pre.drop_last().len() == i);
    assert(spec_par_line_step(before, lines, pre.drop_last().len(), leading, align, orphans, widows, after));
    assert(spec_par_lines(s, lines, pre.drop_last(), leading, align, orphans, widows, before));
}

/// Where the lines of a paragraph start: after deferring the paragraph
/// until its first line fits, if it has lines.
pub open spec fn spec_par_start(s: FlowView, lines: Seq<Frame>, d: FlowView) -> bool {
    if lines.len() > 0 {
        spec_par_deferred(s, height_of(lines[0]), d)
    } else {
        d == s
    }
}

/// Whether adding a paragraph's lines takes the layouter from `s` to `t`.
pub open spec fn spec_par_handled(
    s: FlowView,
    lines: Seq<Frame>,
    leading: Abs,
    align: Axes<FixedAlignment>,
    orphans: bool,
    widows: bool,
    t: FlowView,
) -> bool {
    exists|d: FlowView|
        spec_par_start(s, lines, d) && spec_par_lines(d, lines, lines, leading, align, orphans, widows, t)
}

/// Whether adding a paragraph's lines stays in the range of lengths.
pub open spec fn spec_par_fits(
    s: FlowView,
    lines: Seq<Frame>,
    leading: Abs,
    align: Axes<FixedAlignment>,
    orphans: bool,
    widows: bool,
) -> bool {
    &&& spec_line_needs_fit(lines, leading)
    &&& (lines.len() > 0 ==> spec_defer_fits(s, height_of(lines[0])))
    &&& forall|d: FlowView| #[trigger]
        spec_par_start(s, lines, d) ==> spec_par_lines_fit(d, lines, lines, leading, align, orphans, widows)
}

impl<'a> FlowLayouter<'a> {
    /// Handle the lines of a paragraph laid out with the regions' base: if
    /// the first line does not fit, regions are finished (moving their
    /// sticky items on) until it fits or the region is the last one; the
    /// lines then follow one another with weak leading between them, and
    /// a line moves on to the next region when the space it needs to keep
    /// orphans or widows together is only there.
    pub fn handle_par(
        &mut self,
        lines: Vec<Frame>,
        align: Axes<FixedAlignment>,
        leading: Abs,
        orphans: bool,
        widows: bool,
    )
        requires
            spec_par_fits(old(self).view(), lines@, leading, align, orphans, widows),
        ensures
            exists|t: FlowView|
                spec_par_handled(old(self).view(), lines@, leading, align, orphans, widows, t)
                    && final(self).view() == (FlowView { last_was_par: true, ..t }),
    {
        let ghost s0 = self.view();
        let ghost all = lines@;
        if lines.len() > 0 {
            let h0 = lines[0].height();
            let ghost mut n: nat = 0;
            loop
                invariant_except_break
                    spec_deferred(s0, h0.0 as int, n, self.view()),
                    spec_defer_fits(s0, h0.0 as int),
                ensures
                    spec_par_deferred(s0, h0.0 as int, self.view()),
                decreases spec_skip_measure(self.view()).0, spec_skip_measure(self.view()).1,
            {
                if self.regions.size.y.fits(h0) || self.regions.in_last() {
                    assert(!spec_must_skip(self.view(), h0.0 as int));
                    break;
                }
                let ghost before = self.view();
                assert(spec_must_skip(before, h0.0 as int));
                let r = self.finish_region_with_migration();
                assert(spec_migrated(before, self.view(), r));
                if r {
                    break;
                }
                proof {
                    lemma_migration_decreases(before, self.view());
                    n = n + 1;
                }
            }
        }
        let ghost d = self.view();
        assert(spec_par_start(s0, all, d));
        let needs = line_needs(&lines, leading, orphans, widows);
        let n = lines.len();
        let mut rest = lines;
        let mut i: usize = 0;
        assert(all.take(0) =~= Seq::<Frame>::empty());
        assert(all.take(n as int) =~= all);
        while i < n
            invariant
                i <= n,
                n == all.len(),
                rest@ == all.subrange(i as int, n as int),
                needs@.len() == n,
                forall|k: int|
                    0 <= k < n ==> #[trigger] needs@[k].0 == spec_line_need(all, leading, orphans, widows, k),
                spec_par_lines_fit(d, all, all.take(n as int), leading, align, orphans, widows),
                spec_par_lines(d, all, all.take(i as int), leading, align, orphans, widows, self.view()),
                spec_par_start(s0, all, d),
            decreases n - i,
        {
            let ghost before = self.view();
            proof {
                lemma_par_lines_fit_prefix(d, all, leading, align, orphans, widows, i + 1, n as int);
                assert(all.take(i + 1).drop_last() =~= all.take(i as int));
                assert(all.take(i + 1).drop_last().len() == i);
                assert(spec_par_line_fits(before, all, i as nat, leading, align, orphans, widows));
            }
            let mut frame = rest.remove(0);
            assert(frame == all[i as int]);
            if i > 0 {
                self.handle_item(FlowItem::Absolute(leading, true));
            }
            let ghost a = self.view();
            assert(spec_par_leading(before, i as nat, leading, a));
            let need = needs[i];
            let ahead = self.regions.iter(2);
            let advance = !self.regions.in_last() && !self.regions.size.y.fits(need) && ahead.len() > 1
                && ahead[1].y.fits(need);
            proof {
                if ahead@.len() <= 1 {
                    assert(self.view().regions.spec_item(0) is Some);
                    assert(ahead@.len() == 1);
                    assert(self.view().regions.spec_item(1) is None);
                } else {
                    assert(self.view().regions.spec_item(1) == Some(ahead@[1]));
                }
                assert(advance == spec_par_advance(a, need.0 as int));
            }
            if advance {
                self.finish_region(false);
            }
            let ghost b = self.view();
            assert(spec_par_moved(a, need.0 as int, b));
            self.drain_tag(&mut frame);
            let ghost f = frame;
            assert(f@ == spec_drained(b, all[i as int]@).1);
            assert(self.view() == spec_drained(b, all[i as int]@).0);
            let item = FlowItem::Frame { frame, align, sticky: false, movable: true };
            assert(item == spec_line_item(f, align));
            assert(spec_item_fits(spec_drained(b, all[i as int]@).0, spec_line_item(f, align)));
            self.handle_item(item);
            proof {
                assert(spec_par_line_step(before, all, i as nat, leading, align, orphans, widows, self.view()));
                lemma_par_lines_step(d, all, i as int, leading, align, orphans, widows, before, self.view());
                assert(rest@ =~= all.subrange(i + 1, n as int));
            }
            i += 1;
        }
        assert(all.take(n as int) =~= all);
        assert(spec_par_handled(s0, all, leading, align, orphans, widows, self.view()));
        self.last_was_par = true;
    }
}

/// With widow prevention, the second to last line of a paragraph of at
/// least four lines needs the space of the last two lines, whether or not
/// orphans are prevented; with orphan prevention, the first line of a
/// paragraph of other than three lines (or without widow prevention) needs
/// the space of the first two; a line in between needs just its own height.
pub proof fn lemma_line_needs_keep_lines_together(
    lines: Seq<Frame>,
    leading: Abs,
    orphans: bool,
    widows: bool,
)
    ensures
        lines.len() >= 4 && widows && lines[lines.len() - 2]@.items.len() != 0 ==> spec_line_need(
            lines,
            leading,
            orphans,
            widows,
            lines.len() - 2,
        ) == height_of(lines[lines.len() - 2]) + leading.0 + height_of(lines[lines.len() - 1]),
        lines.len() >= 2 && lines.len() != 3 && orphans && lines[1]@.items.len() != 0 ==> spec_line_need(
            lines,
            leading,
            orphans,
            widows,
            0,
        ) == height_of(lines[0]) + leading.0 + height_of(lines[1]),
        lines.len() == 3 && orphans && widows && lines[1]@.items.len() != 0 ==> spec_line_need(
            lines,
            leading,
            orphans,
            widows,
            0,
        ) == height_of(lines[0]) + leading.0 + height_of(lines[1]) + leading.0 + height_of(lines[2]),
        forall|i: int|
            1 <= i < lines.len() && i + 2 != lines.len() ==> #[trigger] spec_line_need(
                lines,
                leading,
                orphans,
                widows,
                i,
            ) == height_of(lines[i]),
{
}

/// The horizontal position of a placed item.
pub open spec fn spec_item_x(item: (Point, FrameItem)) -> int {
    item.0.x.0 as int
}

/// The width of a frame placed as a group.
pub open spec fn spec_item_width(item: (Point, FrameItem)) -> int {
    match item.1 {
        FrameItem::Group(g) => g.frame@.size.x.0 as int,
        _ => 0,
    }
}

/// Stitching columns against the text direction mirrors stitching them
/// along it: the same frames, in the same order and at the same heights,
/// each at the region's width minus its position along the text direction
/// minus its width. Along the text direction each column starts at or after
/// zero and ends, with the gutter, before where the next column starts, so
/// where the columns fit in the region's width, every column lies within
/// the region in both directions. This holds for hard column frames (placed
/// as groups) of widths that are not negative, with a gutter that is not
/// negative, where every position is a length.
pub proof fn lemma_stitch_mirrors(
    frames: Seq<Frame>,
    j: int,
    c: int,
    columns: int,
    width: Abs,
    height: Abs,
    expand_y: bool,
    gutter: int,
)
    requires
        j >= 0,
        columns >= 0,
        forall|i: int| 0 <= i < frames.len() ==> (#[trigger] frames[i])@.kind == FrameKind::Hard,
        forall|i: int| 0 <= i < frames.len() ==> width_of(#[trigger] frames[i]) >= 0,
        gutter >= 0,
        spec_stitch_cols(frames, j, c, columns, width, height, expand_y, gutter, true).2,
        spec_stitch_cols(frames, j, c, columns, width, height, expand_y, gutter, false).2,
    ensures
        ({
            let l = spec_stitch_cols(frames, j, c, columns, width, height, expand_y, gutter, true);
            let r = spec_stitch_cols(frames, j, c, columns, width, height, expand_y, gutter, false);
            &&& l.1 == r.1
            &&& l.1 >= 0
            &&& l.0.items.len() == r.0.items.len()
            &&& forall|k: int|
                0 <= k < l.0.items.len() ==> {
                    &&& (#[trigger] r.0.items[k]).1 == l.0.items[k].1
                    &&& r.0.items[k].0.y == l.0.items[k].0.y
                    &&& spec_item_x(r.0.items[k]) == width.0 - spec_item_x(l.0.items[k]) - spec_item_width(
                        l.0.items[k],
                    )
                    &&& 0 <= spec_item_x(l.0.items[k])
                    &&& spec_item_x(l.0.items[k]) + spec_item_width(l.0.items[k]) + gutter <= l.1
                    &&& l.1 <= width.0 + gutter ==> {
                        &&& spec_item_x(l.0.items[k]) + spec_item_width(l.0.items[k]) <= width.0
                        &&& 0 <= spec_item_x(r.0.items[k])
                        &&& spec_item_x(r.0.items[k]) + spec_item_width(r.0.items[k]) <= width.0
                    }
                }
        }),
    decreases c,
{
    if c > 0 {
        let lp = spec_stitch_cols(frames, j, c - 1, columns, width, height, expand_y, gutter, true);
        let rp = spec_stitch_cols(frames, j, c - 1, columns, width, height, expand_y, gutter, false);
        lemma_stitch_mirrors(frames, j, c - 1, columns, width, height, expand_y, gutter);
        let l = spec_stitch_cols(frames, j, c, columns, width, height, expand_y, gutter, true);
        let r = spec_stitch_cols(frames, j, c, columns, width, height, expand_y, gutter, false);
        let idx = j * columns + (c - 1);
        assert(j * columns >= 0) by (nonlinear_arith)
            requires
                j >= 0,
                columns >= 0,
        ;
        if idx < frames.len() {
            let fr = frames[idx];
            assert(fr@.kind == FrameKind::Hard);
            assert(width_of(fr) >= 0);
            let n = lp.0.items.len();
            assert(l.0.items == lp.0.items.push(l.0.items.last()));
            assert(r.0.items == rp.0.items.push(r.0.items.last()));
            assert forall|k: int| 0 <= k < l.0.items.len() implies {
                &&& (#[trigger] r.0.items[k]).1 == l.0.items[k].1
                &&& r.0.items[k].0.y == l.0.items[k].0.y
                &&& spec_item_x(r.0.items[k]) == width.0 - spec_item_x(l.0.items[k]) - spec_item_width(
                    l.0.items[k],
                )
                &&& 0 <= spec_item_x(l.0.items[k])
                &&& spec_item_x(l.0.items[k]) + spec_item_width(l.0.items[k]) + gutter <= l.1
                &&& l.1 <= width.0 + gutter ==> {
                    &&& spec_item_x(l.0.items[k]) + spec_item_width(l.0.items[k]) <= width.0
                    &&& 0 <= spec_item_x(r.0.items[k])
                    &&& spec_item_x(r.0.items[k]) + spec_item_width(r.0.items[k]) <= width.0
                }
            } by {
                if k < n {
                    assert(l.0.items[k] == lp.0.items[k]);
                    assert(r.0.items[k] == rp.0.items[k]);
                }
            }
        }
    }
}

} // verus!
