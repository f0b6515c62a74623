//! Stacking content along an axis.

use vstd::prelude::*;

use crate::align::FixedAlignment;
use crate::container::Spacing;
use crate::content::Content;
use crate::frame::{spec_push_frame, spec_should_inline, spec_translatable, Frame, FrameItem, FrameKind, FrameView};
use crate::geom::{in_range, spec_scale, spec_share, Abs, Axes, Axis, Dir, Fr, Point, Rel, Size};
use crate::regions::{Regions, RegionsView};

verus! {

/// Arranges content and spacing horizontally or vertically.
#[derive(Clone, PartialEq, Eq, Debug)]
pub struct StackElem {
    /// The direction along which the items are stacked.
    pub dir: Dir,
    /// Spacing to insert between items where no explicit spacing was
    /// provided.
    pub spacing: Option<Spacing>,
    /// The children to stack along the axis.
    pub children: Vec<StackChild>,
}

impl StackElem {
    /// A stack of the children from top to bottom without extra spacing.
    pub fn new(children: Vec<StackChild>) -> (e: Self)
        ensures
            e.dir == Dir::TTB,
            e.spacing is None,
            e.children == children,
    {
        StackElem { dir: Dir::TTB, spacing: None, children }
    }
}

/// A child of a stack element.
#[derive(Clone, Copy, PartialEq, Eq, Structural, Hash, Debug)]
pub enum StackChild {
    /// Spacing between other children.
    Spacing(Spacing),
    /// Arbitrary block-level content.
    Block(Content),
}

/// A container with a main and cross component.
#[derive(Clone, Copy, PartialEq, Eq, Structural, Hash, Debug)]
pub struct Gen<T> {
    /// The cross component.
    pub cross: T,
    /// The main component.
    pub main: T,
}

impl<T> Gen<T> {
    /// The components laid out along the axes, the main component along the
    /// main axis.
    pub open spec fn spec_into_axes(self, main: Axis) -> Axes<T> {
        match main {
            Axis::X => Axes { x: self.main, y: self.cross },
            Axis::Y => Axes { x: self.cross, y: self.main },
        }
    }

    /// Create a new instance from the two components.
    pub fn new(cross: T, main: T) -> (g: Self)
        ensures
            g.cross == cross,
            g.main == main,
    {
        Gen { cross, main }
    }

    /// Convert to the specific representation, given the current main axis:
    /// the main component goes along the main axis.
    pub fn into_axes(self, main: Axis) -> (r: Axes<T>)
        ensures
            r == self.spec_into_axes(main),
    {
        match main {
            Axis::X => Axes { x: self.main, y: self.cross },
            Axis::Y => Axes { x: self.cross, y: self.main },
        }
    }
}

impl Gen<Abs> {
    /// The zero value.
    pub fn zero() -> (g: Self)
        ensures
            g.cross.0 == 0,
            g.main.0 == 0,
    {
        Gen { cross: Abs(0), main: Abs(0) }
    }

    /// Convert to a point, given the current main axis.
    pub fn to_point(self, main: Axis) -> (p: Point)
        ensures
            p.x == self.spec_into_axes(main).x,
            p.y == self.spec_into_axes(main).y,
    {
        self.into_axes(main).to_point()
    }
}


/// A prepared item in a stack layout.
pub enum StackItem {
    /// Absolute spacing between other items.
    Absolute(Abs),
    /// Fractional spacing between other items.
    Fractional(Fr),
    /// A frame for a laid-out block, with the block's alignment.
    Frame(Frame, Axes<FixedAlignment>),
}

/// Performs stack layout.
///
/// Blocks are laid out into `regions` by the caller, after
/// [`StackLayouter::finish_if_full`], and handed over with
/// [`StackLayouter::layout_block`].
pub struct StackLayouter<'a> {
    /// The stacking direction.
    pub dir: Dir,
    /// The axis of the stacking direction.
    pub axis: Axis,
    /// The regions to layout children into.
    pub regions: Regions<'a>,
    /// The font size of the inherited styles, for lengths relative to it.
    pub font_size: Abs,
    /// Whether the stack itself should expand to fill the region.
    pub expand: Axes<bool>,
    /// The initial size of the current region before we started subtracting.
    pub initial: Size,
    /// The generic size used by the frames for the current region.
    pub used: Gen<Abs>,
    /// The sum of fractions in the current region.
    pub fr: Fr,
    /// Already laid-out items whose exact positions are not yet known due to
    /// fractional spacing.
    pub items: Vec<StackItem>,
    /// Finished frames for previous regions.
    pub finished: Vec<Frame>,
}

/// A stack layouter as plain values.
pub struct StackView {
    /// The stacking direction.
    pub dir: Dir,
    /// The axis of the stacking direction.
    pub axis: Axis,
    /// The regions.
    pub regions: RegionsView,
    /// The font size of the inherited styles.
    pub font_size: Abs,
    /// Whether the stack should expand to fill the region.
    pub expand: Axes<bool>,
    /// The initial size of the current region.
    pub initial: Size,
    /// The size used by the frames in the current region.
    pub used: Gen<Abs>,
    /// The sum of fractions in the current region.
    pub fr: Fr,
    /// The items of the current region.
    pub items: Seq<StackItem>,
    /// The finished frames.
    pub finished: Seq<FrameView>,
}

impl StackView {
    /// Whether the axis is the one of the stacking direction.
    pub open spec fn wf(self) -> bool {
        self.axis == self.dir.spec_axis()
    }
}

impl<'a> StackLayouter<'a> {
    /// The layouter as plain values.
    pub open spec fn view(&self) -> StackView {
        StackView {
            dir: self.dir,
            axis: self.axis,
            regions: self.regions@,
            font_size: self.font_size,
            expand: self.expand,
            initial: self.initial,
            used: self.used,
            fr: self.fr,
            items: self.items@,
            finished: self.finished@.map_values(|f: Frame| f@),
        }
    }
}

/// The generic size of a frame of size `size` stacked along `axis`.
pub open spec fn spec_gen_of(size: Size, axis: Axis) -> Gen<Abs> {
    match axis {
        Axis::X => Gen { cross: size.y, main: size.x },
        Axis::Y => Gen { cross: size.x, main: size.y },
    }
}

/// The smaller of two lengths.
pub open spec fn abs_min(a: Abs, b: Abs) -> Abs {
    if a.0 <= b.0 {
        a
    } else {
        b
    }
}

/// The resolved length of relative spacing in the stack `s`.
pub open spec fn spec_spacing_len(s: StackView, v: Rel<crate::geom::Length>) -> int {
    let whole = Axes { x: s.regions.size.x, y: s.regions.full }.spec_get(s.axis);
    v.spec_resolve(s.font_size).spec_relative_to(whole)
}

/// Whether adding the spacing to the stack `s` stays in the range of lengths.
pub open spec fn spec_spacing_fits(s: StackView, spacing: Spacing) -> bool {
    match spacing {
        Spacing::Rel(v) => {
            let whole = Axes { x: s.regions.size.x, y: s.regions.full }.spec_get(s.axis);
            let resolved = spec_spacing_len(s, v);
            let remaining = s.regions.size.spec_get(s.axis).0 as int;
            let limited = if resolved <= remaining {
                resolved
            } else {
                remaining
            };
            &&& v.abs.spec_at_fits(s.font_size)
            &&& in_range(spec_scale(v.rel.0 as int, whole.0 as int))
            &&& in_range(resolved)
            &&& (s.dir.spec_axis() == Axis::Y ==> in_range(remaining - limited))
            &&& in_range(s.used.main.0 + limited)
        },
        Spacing::Fr(v) => in_range(s.fr.0 + v.0),
    }
}

/// The stack `s` after adding spacing: relative spacing is resolved, and it
/// uses up at most the remaining space of the region, while the item keeps
/// the full length; fractional spacing adds to the fractions of the region.
pub open spec fn spec_spaced(s: StackView, spacing: Spacing) -> StackView {
    match spacing {
        Spacing::Rel(v) => {
            let resolved = spec_spacing_len(s, v);
            let remaining = s.regions.size.spec_get(s.axis).0 as int;
            let limited = if resolved <= remaining {
                resolved
            } else {
                remaining
            };
            StackView {
                regions: if s.dir.spec_axis() == Axis::Y {
                    RegionsView {
                        size: Axes { x: s.regions.size.x, y: Abs((remaining - limited) as i64) },
                        ..s.regions
                    }
                } else {
                    s.regions
                },
                used: Gen { main: Abs((s.used.main.0 + limited) as i64), ..s.used },
                items: s.items.push(StackItem::Absolute(Abs(resolved as i64))),
                ..s
            }
        },
        Spacing::Fr(v) => StackView {
            fr: Fr((s.fr.0 + v.0) as i64),
            items: s.items.push(StackItem::Fractional(v)),
            ..s
        },
    }
}

/// Whether adding a frame to the stack `s` stays in the range of lengths.
pub open spec fn spec_frame_fits(s: StackView, frame: Frame) -> bool {
    &&& (s.dir.spec_axis() == Axis::Y ==> in_range(s.regions.size.y.0 - frame@.size.y.0))
    &&& in_range(s.used.main.0 + spec_gen_of(frame@.size, s.axis).main.0)
}

/// The stack `s` after adding a frame: it shrinks the region along a
/// vertical stack, grows the used size and waits for its position.
pub open spec fn spec_frame_pushed(s: StackView, frame: Frame, align: Axes<FixedAlignment>) -> StackView {
    let g = spec_gen_of(frame@.size, s.axis);
    StackView {
        regions: if s.dir.spec_axis() == Axis::Y {
            RegionsView {
                size: Axes {
                    x: s.regions.size.x,
                    y: Abs((s.regions.size.y.0 - frame@.size.y.0) as i64),
                },
                ..s.regions
            }
        } else {
            s.regions
        },
        used: Gen {
            main: Abs((s.used.main.0 + g.main.0) as i64),
            cross: if s.used.cross.0 >= g.cross.0 {
                s.used.cross
            } else {
                g.cross
            },
        },
        items: s.items.push(StackItem::Frame(frame, align)),
        ..s
    }
}

/// What placing the items of a stack region depends on.
pub struct StackCtx {
    /// The stacking direction.
    pub dir: Dir,
    /// The stacking axis.
    pub axis: Axis,
    /// The size of the region's frame.
    pub size: Size,
    /// The length used along the stacking axis.
    pub used_main: int,
    /// The total of the fractional spacing.
    pub fr: Fr,
    /// The space left for fractional spacing.
    pub remaining: Abs,
}

/// The state of placing the items of a stack region.
pub struct StackPlacing {
    /// How far the items so far reach along the stacking axis.
    pub cursor: int,
    /// The alignment along the stacking axis of the frames so far.
    pub ruler: FixedAlignment,
    /// The frame of the region.
    pub out: FrameView,
    /// Whether every position so far is in the range of lengths.
    pub ok: bool,
}

/// The point with the given components across and along the axis.
pub open spec fn spec_stack_point(cross: int, main: int, axis: Axis) -> Point {
    match axis {
        Axis::X => Point { x: Abs(main as i64), y: Abs(cross as i64) },
        Axis::Y => Point { x: Abs(cross as i64), y: Abs(main as i64) },
    }
}

/// The state after placing one item. Spacing moves the cursor; a frame goes
/// at the cursor, shifted into the free space by the strongest alignment so
/// far (counted from the end for a stack in negative direction), and aligned
/// across the axis on its own.
pub open spec fn spec_stack_step(p: StackPlacing, ctx: StackCtx, item: StackItem) -> StackPlacing {
    match item {
        StackItem::Absolute(v) => {
            let c = p.cursor + v.0;
            StackPlacing { cursor: c, ok: p.ok && in_range(c), ..p }
        },
        StackItem::Fractional(v) => {
            let share = spec_share(v.0 as int, ctx.fr.0 as int, ctx.remaining.0 as int);
            let c = p.cursor + share;
            StackPlacing { cursor: c, ok: p.ok && in_range(share) && in_range(c), ..p }
        },
        StackItem::Frame(frame, align) => {
            let positive = ctx.dir.spec_is_positive();
            let ruler = if positive {
                p.ruler.spec_max(align.spec_get(ctx.axis))
            } else {
                p.ruler.spec_min(align.spec_get(ctx.axis))
            };
            let child = frame@.size.spec_get(ctx.axis).0 as int;
            let free = ctx.size.spec_get(ctx.axis).0 - ctx.used_main;
            let back = ctx.used_main - child;
            let off = if positive {
                p.cursor
            } else {
                back - p.cursor
            };
            let main = ruler.spec_position(Abs(free as i64)) + off;
            let other = ctx.axis.spec_other();
            let cfree = ctx.size.spec_get(other).0 - frame@.size.spec_get(other).0;
            let cross = align.spec_get(other).spec_position(Abs(cfree as i64));
            let pos = spec_stack_point(cross, main, ctx.axis);
            let next = p.cursor + child;
            let conds = in_range(free) && (!positive ==> in_range(back) && in_range(off))
                && in_range(main) && in_range(cfree) && in_range(next) && (spec_should_inline(
                p.out,
                frame@,
            ) ==> spec_translatable(frame@.items, pos));
            StackPlacing {
                cursor: next,
                ruler,
                out: spec_push_frame(p.out, pos, frame),
                ok: p.ok && conds,
            }
        },
    }
}

/// The state after placing the items in order, starting from `start`.
pub open spec fn spec_stack_place(items: Seq<StackItem>, ctx: StackCtx, start: StackPlacing) -> StackPlacing
    decreases items.len(),
{
    if items.len() == 0 {
        start
    } else {
        spec_stack_step(spec_stack_place(items.drop_last(), ctx, start), ctx, items.last())
    }
}

/// Once an arithmetic overflow occurred while placing, it stays recorded.
proof fn lemma_stack_place_ok_prefix(items: Seq<StackItem>, ctx: StackCtx, start: StackPlacing, k: int)
    requires
        0 <= k <= items.len(),
        spec_stack_place(items, ctx, start).ok,
    ensures
        spec_stack_place(items.take(k), ctx, start).ok,
    decreases items.len() - k,
{
    if k < items.len() {
        assert(items.take(k + 1).drop_last() =~= items.take(k));
        lemma_stack_place_ok_prefix(items, ctx, start, k + 1);
    } else {
        assert(items.take(k) =~= items);
    }
}

/// The size of the stack's frame in the current region: the used size, or
/// the full size along the axes where the stack expands, at most the
/// region's size; along the stacking axis the full size if there is
/// fractional spacing.
pub open spec fn spec_stack_size(s: StackView) -> Size {
    let u = s.used.spec_into_axes(s.axis);
    let sel = Axes {
        x: if s.expand.x {
            s.initial.x
        } else {
            u.x
        },
        y: if s.expand.y {
            s.initial.y
        } else {
            u.y
        },
    };
    let m = Axes { x: abs_min(sel.x, s.initial.x), y: abs_min(sel.y, s.initial.y) };
    if s.fr.0 > 0 {
        m.spec_with(s.axis, s.initial.spec_get(s.axis))
    } else {
        m
    }
}

/// What placing the items of the current region of `s` depends on.
pub open spec fn spec_stack_ctx(s: StackView) -> StackCtx {
    let full = s.initial.spec_get(s.axis).0 as int;
    StackCtx {
        dir: s.dir,
        axis: s.axis,
        size: spec_stack_size(s),
        used_main: if s.fr.0 > 0 {
            full
        } else {
            s.used.main.0 as int
        },
        fr: s.fr,
        remaining: Abs((full - s.used.main.0) as i64),
    }
}

/// The state before placing the items of the current region of `s`: an
/// empty hard frame, with the alignment at the start of the direction.
pub open spec fn spec_stack_start(s: StackView) -> StackPlacing {
    StackPlacing {
        cursor: 0,
        ruler: if s.dir.spec_is_positive() {
            FixedAlignment::Start
        } else {
            FixedAlignment::End
        },
        out: FrameView {
            size: spec_stack_size(s),
            baseline: None,
            items: Seq::empty(),
            kind: FrameKind::Hard,
        },
        ok: true,
    }
}

/// The frame of the current region of `s`, with its items placed.
pub open spec fn spec_stack_output(s: StackView) -> FrameView {
    spec_stack_place(s.items, spec_stack_ctx(s), spec_stack_start(s)).out
}

/// Whether finishing the current region of `s` stays in the range of
/// lengths.
pub open spec fn spec_stack_finish_fits(s: StackView) -> bool {
    &&& in_range(s.initial.spec_get(s.axis).0 - s.used.main.0)
    &&& spec_stack_place(s.items, spec_stack_ctx(s), spec_stack_start(s)).ok
}

/// The stack `s` after finishing its region: the frame is finished and the
/// regions advance, with nothing used and no items in the next region.
pub open spec fn spec_stack_finished(s: StackView) -> StackView {
    let next = s.regions.spec_next();
    StackView {
        regions: next,
        initial: next.size,
        used: Gen { cross: Abs(0), main: Abs(0) },
        fr: Fr(0),
        items: Seq::empty(),
        finished: s.finished.push(spec_stack_output(s)),
        ..s
    }
}

/// The stack `s` after adding one frame of a fragment, and finishing the
/// region unless it is the fragment's last.
pub open spec fn spec_fragment_step(
    s: StackView,
    frame: Frame,
    align: Axes<FixedAlignment>,
    more: bool,
) -> StackView {
    let t = spec_frame_pushed(s, frame, align);
    if more {
        spec_stack_finished(t)
    } else {
        t
    }
}

/// The stack `s` after adding the first `k` frames of a fragment.
pub open spec fn spec_fragment_state(
    s: StackView,
    frames: Seq<Frame>,
    align: Axes<FixedAlignment>,
    k: nat,
) -> StackView
    decreases k,
{
    if k == 0 {
        s
    } else {
        spec_fragment_step(
            spec_fragment_state(s, frames, align, (k - 1) as nat),
            frames[k - 1],
            align,
            k < frames.len(),
        )
    }
}

/// Whether adding all frames of a fragment stays in the range of lengths.
pub open spec fn spec_fragment_fits(s: StackView, frames: Seq<Frame>, align: Axes<FixedAlignment>) -> bool {
    forall|k: nat|
        k < frames.len() ==> {
            let st = #[trigger] spec_fragment_state(s, frames, align, k);
            &&& spec_frame_fits(st, frames[k as int])
            &&& (k + 1 < frames.len() ==> spec_stack_finish_fits(
                spec_frame_pushed(st, frames[k as int], align),
            ))
        }
}

/// The running state of placing the items of a stack region.
struct StackRun {
    cursor: Abs,
    ruler: FixedAlignment,
}

/// The placing state the running state and frame stand for.
spec fn stack_placing_of(st: StackRun, out: FrameView) -> StackPlacing {
    StackPlacing { cursor: st.cursor.0 as int, ruler: st.ruler, out, ok: true }
}

/// The values placing depends on, while running.
struct StackRunCtx {
    dir: Dir,
    axis: Axis,
    size: Size,
    used_main: Abs,
    fr: Fr,
    remaining: Abs,
}

/// The placing context the running one stands for.
spec fn stack_ctx_of(c: StackRunCtx) -> StackCtx {
    StackCtx {
        dir: c.dir,
        axis: c.axis,
        size: c.size,
        used_main: c.used_main.0 as int,
        fr: c.fr,
        remaining: c.remaining,
    }
}

/// Place one item of a stack region into its frame.
fn place_stack_item(st: &mut StackRun, out: &mut Frame, ctx: &StackRunCtx, item: StackItem)
    requires
        spec_stack_step(stack_placing_of(*old(st), old(out)@), stack_ctx_of(*ctx), item).ok,
    ensures
        stack_placing_of(*final(st), final(out)@) == spec_stack_step(
            stack_placing_of(*old(st), old(out)@),
            stack_ctx_of(*ctx),
            item,
        ),
{
    match item {
        StackItem::Absolute(v) => {
            st.cursor = st.cursor.plus(v);
        },
        StackItem::Fractional(v) => {
            st.cursor = st.cursor.plus(v.share(ctx.fr, ctx.remaining));
        },
        StackItem::Frame(frame, align) => {
            let axis = ctx.axis;
            let positive = ctx.dir.is_positive();
            if positive {
                st.ruler = st.ruler.max(align.get(axis));
            } else {
                st.ruler = st.ruler.min(align.get(axis));
            }
            let child = frame.size().get(axis);
            let free = ctx.size.get(axis).minus(ctx.used_main);
            let off = if positive {
                st.cursor
            } else {
                ctx.used_main.minus(child).minus(st.cursor)
            };
            let main = st.ruler.position(free).plus(off);
            let other = axis.other();
            let cross = align.get(other).position(ctx.size.get(other).minus(frame.size().get(other)));
            let pos = Gen::new(cross, main).to_point(axis);
            st.cursor = st.cursor.plus(child);
            out.push_frame(pos, frame);
        },
    }
}

impl<'a> StackLayouter<'a> {
    /// Create a new stack layouter. Children are laid out without expanding
    /// along the stacking axis.
    pub fn new(dir: Dir, regions: Regions<'a>, font_size: Abs) -> (s: Self)
        ensures
            s@ == (StackView {
                dir,
                axis: dir.spec_axis(),
                regions: RegionsView {
                    expand: regions@.expand.spec_with(dir.spec_axis(), false),
                    ..regions@
                },
                font_size,
                expand: regions@.expand,
                initial: regions@.size,
                used: Gen { cross: Abs(0), main: Abs(0) },
                fr: Fr(0),
                items: Seq::empty(),
                finished: Seq::empty(),
            }),
    {
        let axis = dir.axis();
        let expand = regions.expand;
        let mut regions = regions;
        regions.expand.set(axis, false);
        let s = StackLayouter {
            dir,
            axis,
            regions,
            font_size,
            expand,
            initial: regions.size,
            used: Gen::zero(),
            fr: Fr::zero(),
            items: Vec::new(),
            finished: Vec::new(),
        };
        assert(s@.finished =~= Seq::<FrameView>::empty());
        s
    }

    /// Add spacing along the spacing direction.
    pub fn layout_spacing(&mut self, spacing: Spacing)
        requires
            old(self)@.wf(),
            spec_spacing_fits(old(self)@, spacing),
        ensures
            final(self)@ == spec_spaced(old(self)@, spacing),
    {
        match spacing {
            Spacing::Rel(v) => {
                let whole = self.regions.base().get(self.axis);
                let resolved = v.resolve(self.font_size).relative_to(whole);
                let remaining = self.regions.size.get(self.axis);
                let limited = resolved.min(remaining);
                if self.dir.axis() == Axis::Y {
                    self.regions.size.y = remaining.minus(limited);
                }
                self.used.main = self.used.main.plus(limited);
                self.items.push(StackItem::Absolute(resolved));
            },
            Spacing::Fr(v) => {
                self.fr = self.fr.plus(v);
                self.items.push(StackItem::Fractional(v));
            },
        }
    }

    /// Finish the region first if it is full, before a block is laid out
    /// into the regions.
    pub fn finish_if_full(&mut self)
        requires
            old(self)@.wf(),
            old(self)@.regions.size.y.0 <= 0 && old(self)@.regions.spec_may_progress()
                ==> spec_stack_finish_fits(old(self)@),
        ensures
            final(self)@ == if old(self)@.regions.size.y.0 <= 0
                && old(self)@.regions.spec_may_progress() {
                spec_stack_finished(old(self)@)
            } else {
                old(self)@
            },
    {
        if self.regions.is_full() {
            self.finish_region();
        }
    }

    /// Add one frame of a laid-out block.
    fn push_block_frame(&mut self, frame: Frame, align: Axes<FixedAlignment>)
        requires
            old(self)@.wf(),
            spec_frame_fits(old(self)@, frame),
        ensures
            final(self)@ == spec_frame_pushed(old(self)@, frame, align),
    {
        let size = frame.size();
        if self.dir.axis() == Axis::Y {
            self.regions.size.y = self.regions.size.y.minus(size.y);
        }
        let gen = match self.axis {
            Axis::X => Gen::new(size.y, size.x),
            Axis::Y => Gen::new(size.x, size.y),
        };
        self.used.main = self.used.main.plus(gen.main);
        self.used.cross = self.used.cross.max(gen.cross);
        self.items.push(StackItem::Frame(frame, align));
    }

    /// Add the frames of a block laid out into the regions, with the block's
    /// alignment. Each frame but the last finishes its region.
    pub fn layout_block(&mut self, fragment: Vec<Frame>, align: Axes<FixedAlignment>)
        requires
            old(self)@.wf(),
            spec_fragment_fits(old(self)@, fragment@, align),
        ensures
            final(self)@ == spec_fragment_state(old(self)@, fragment@, align, fragment@.len()),
    {
        let ghost s0 = self@;
        let ghost frames = fragment@;
        let len = fragment.len();
        let mut rest = fragment;
        let mut i: usize = 0;
        while i < len
            invariant
                i <= len,
                len == frames.len(),
                rest@ == frames.subrange(i as int, len as int),
                self@ == spec_fragment_state(s0, frames, align, i as nat),
                self@.wf(),
                s0.wf(),
                spec_fragment_fits(s0, frames, align),
            decreases len - i,
        {
            let frame = rest.remove(0);
            proof {
                let st = spec_fragment_state(s0, frames, align, i as nat);
                assert(frame == frames[i as int]);
                assert(spec_frame_fits(st, frames[i as int]));
                assert(i + 1 < len ==> spec_stack_finish_fits(
                    spec_frame_pushed(st, frames[i as int], align),
                ));
            }
            self.push_block_frame(frame, align);
            if i + 1 < len {
                self.finish_region();
            }
            proof {
                assert(rest@ =~= frames.subrange(i + 1, len as int));
            }
            i += 1;
        }
    }

    /// Advance to the next region.
    pub fn finish_region(&mut self)
        requires
            old(self)@.wf(),
            spec_stack_finish_fits(old(self)@),
        ensures
            final(self)@ == spec_stack_finished(old(self)@),
    {
        let ghost s = self@;
        let axis = self.axis;
        let mut size = self.expand.select(self.initial, self.used.into_axes(axis)).min(
            self.initial,
        );
        let full = self.initial.get(axis);
        let remaining = full.minus(self.used.main);
        if self.fr.0 > 0 {
            self.used.main = full;
            size.set(axis, full);
        }
        assert(size == spec_stack_size(s));
        let mut output = Frame::hard(size);
        let ruler = FixedAlignment::from_side(self.dir.start());
        let mut st = StackRun { cursor: Abs::zero(), ruler };
        let ctx = StackRunCtx {
            dir: self.dir,
            axis,
            size,
            used_main: self.used.main,
            fr: self.fr,
            remaining,
        };
        let mut items: Vec<StackItem> = Vec::new();
        std::mem::swap(&mut items, &mut self.items);
        let ghost all = items@;
        let ghost gctx = spec_stack_ctx(s);
        let ghost start = spec_stack_start(s);
        assert(stack_ctx_of(ctx) == gctx);
        assert(stack_placing_of(st, output@) == spec_stack_place(all.take(0), gctx, start));
        let mut i: usize = 0;
        while i < items.len()
            invariant
                items@.len() == all.len(),
                i <= all.len(),
                forall|k: int| i <= k < all.len() ==> #[trigger] items@[k] == all[k],
                stack_ctx_of(ctx) == gctx,
                spec_stack_place(all, gctx, start).ok,
                stack_placing_of(st, output@) == spec_stack_place(all.take(i as int), gctx, start),
            decreases all.len() - i,
        {
            proof {
                lemma_stack_place_ok_prefix(all, gctx, start, i + 1);
                assert(all.take(i + 1).drop_last() =~= all.take(i as int));
            }
            let mut entry = StackItem::Fractional(Fr::zero());
            std::mem::swap(&mut entry, &mut items[i]);
            place_stack_item(&mut st, &mut output, &ctx, entry);
            i += 1;
        }
        assert(all.take(all.len() as int) =~= all);
        self.regions.next();
        self.initial = self.regions.size;
        self.used = Gen::zero();
        self.fr = Fr::zero();
        let ghost before = self.finished@;
        let ghost out_view = output@;
        self.finished.push(output);
        assert(self.finished@.map_values(|f: Frame| f@) =~= before.map_values(|f: Frame| f@).push(
            out_view,
        ));
        assert(self.items@ =~= Seq::<StackItem>::empty());
    }

    /// Finish layouting and return the resulting frames.
    pub fn finish(self) -> (r: Vec<Frame>)
        requires
            self@.wf(),
            spec_stack_finish_fits(self@),
        ensures
            r@.map_values(|f: Frame| f@) == self@.finished.push(spec_stack_output(self@)),
    {
        let mut s = self;
        s.finish_region();
        s.finished
    }
}


/// Placing items keeps the size of the frame.
proof fn lemma_stack_place_size(items: Seq<StackItem>, ctx: StackCtx, start: StackPlacing)
    ensures
        spec_stack_place(items, ctx, start).out.size == start.out.size,
    decreases items.len(),
{
    if items.len() > 0 {
        lemma_stack_place_size(items.drop_last(), ctx, start);
    }
}

/// The frame of a stack region never exceeds the region: it is at most as
/// large as the region along both axes.
pub proof fn lemma_stack_frame_within_region(s: StackView)
    ensures
        spec_stack_output(s).size.x.0 <= s.initial.x.0,
        spec_stack_output(s).size.y.0 <= s.initial.y.0,
{
    lemma_stack_place_size(s.items, spec_stack_ctx(s), spec_stack_start(s));
}

/// The coordinate of a placed item along the stacking axis.
pub open spec fn spec_item_main(item: (Point, FrameItem), axis: Axis) -> int {
    match axis {
        Axis::X => item.0.x.0 as int,
        Axis::Y => item.0.y.0 as int,
    }
}

/// The extent of a placed frame along the stacking axis.
pub open spec fn spec_item_extent(item: (Point, FrameItem), axis: Axis) -> int {
    match item.1 {
        FrameItem::Group(g) => g.frame@.size.spec_get(axis).0 as int,
        _ => 0,
    }
}

/// Whether the placed frames follow each other along the stacking axis
/// without overlapping: in a positive direction each starts at or after the
/// end of the one before it, in a negative direction each ends at or before
/// the start of the one before it.
pub open spec fn spec_frames_in_order(items: Seq<(Point, FrameItem)>, axis: Axis, positive: bool) -> bool {
    forall|k: int|
        1 <= k < items.len() ==> if positive {
            spec_item_main(#[trigger] items[k], axis) >= spec_item_main(items[k - 1], axis)
                + spec_item_extent(items[k - 1], axis)
        } else {
            spec_item_main(#[trigger] items[k], axis) + spec_item_extent(items[k], axis)
                <= spec_item_main(items[k - 1], axis)
        }
}

/// What placing keeps: the frames placed so far are in order, and the last
/// one ends (in a positive direction) before the position at which the
/// current alignment would put the next frame, or starts after it (in a
/// negative direction).
spec fn stack_order_inv(p: StackPlacing, ctx: StackCtx, start_len: int) -> bool {
    let positive = ctx.dir.spec_is_positive();
    let free = ctx.size.spec_get(ctx.axis).0 - ctx.used_main;
    let base = p.ruler.spec_position(Abs(free as i64));
    let items = p.out.items;
    &&& items.len() >= start_len
    &&& spec_frames_in_order(items, ctx.axis, positive)
    &&& items.len() > 0 ==> if positive {
        spec_item_main(items.last(), ctx.axis) + spec_item_extent(items.last(), ctx.axis) <= base + p.cursor
    } else {
        spec_item_main(items.last(), ctx.axis) >= base + ctx.used_main - p.cursor
    }
}

/// A later alignment puts a frame at least as far along a non-negative free
/// space.
proof fn lemma_position_monotone(a: FixedAlignment, b: FixedAlignment, free: int)
    requires
        a.spec_rank() <= b.spec_rank(),
        0 <= free <= i64::MAX,
    ensures
        a.spec_position(Abs(free as i64)) <= b.spec_position(Abs(free as i64)),
{
}

/// Placing keeps the frames in order.
proof fn lemma_stack_order_steps(items: Seq<StackItem>, ctx: StackCtx, start: StackPlacing)
    requires
        spec_stack_place(items, ctx, start).ok,
        start.out.items.len() == 0,
        0 <= ctx.size.spec_get(ctx.axis).0 - ctx.used_main,
        forall|i: int|
            0 <= i < items.len() ==> match #[trigger] items[i] {
                StackItem::Absolute(v) => v.0 >= 0,
                StackItem::Fractional(_) => true,
                StackItem::Frame(f, _) => f@.kind == FrameKind::Hard,
            },
    ensures
        stack_order_inv(spec_stack_place(items, ctx, start), ctx, 0),
    decreases items.len(),
{
    if items.len() > 0 {
        let prev_items = items.drop_last();
        assert forall|i: int| 0 <= i < prev_items.len() implies match #[trigger] prev_items[i] {
            StackItem::Absolute(v) => v.0 >= 0,
            StackItem::Fractional(_) => true,
            StackItem::Frame(f, _) => f@.kind == FrameKind::Hard,
        } by {
            assert(prev_items[i] == items[i]);
        }
        let p = spec_stack_place(prev_items, ctx, start);
        let q = spec_stack_place(items, ctx, start);
        assert(q == spec_stack_step(p, ctx, items.last()));
        assert(p.ok);
        lemma_stack_order_steps(prev_items, ctx, start);
        let positive = ctx.dir.spec_is_positive();
        let free = ctx.size.spec_get(ctx.axis).0 - ctx.used_main;
        assert(items[items.len() - 1] == items.last());
        match items.last() {
            StackItem::Absolute(v) => {
                assert(q.out == p.out && q.ruler == p.ruler);
            },
            StackItem::Fractional(v) => {
                assert(q.out == p.out && q.ruler == p.ruler);
            },
            StackItem::Frame(frame, align) => {
                assert(frame@.kind == FrameKind::Hard);
                assert(!spec_should_inline(p.out, frame@));
                let ruler = q.ruler;
                if positive {
                    lemma_position_monotone(p.ruler, ruler, free);
                } else {
                    lemma_position_monotone(ruler, p.ruler, free);
                }
                let n = p.out.items.len();
                assert(q.out.items == p.out.items.push(q.out.items.last()));
                assert(q.out.items[n as int] == q.out.items.last());
                assert forall|k: int| 1 <= k < q.out.items.len() implies if positive {
                    spec_item_main(#[trigger] q.out.items[k], ctx.axis) >= spec_item_main(
                        q.out.items[k - 1],
                        ctx.axis,
                    ) + spec_item_extent(q.out.items[k - 1], ctx.axis)
                } else {
                    spec_item_main(#[trigger] q.out.items[k], ctx.axis) + spec_item_extent(
                        q.out.items[k],
                        ctx.axis,
                    ) <= spec_item_main(q.out.items[k - 1], ctx.axis)
                } by {
                    if k < n {
                        assert(q.out.items[k] == p.out.items[k]);
                        assert(q.out.items[k - 1] == p.out.items[k - 1]);
                    } else {
                        assert(q.out.items[k - 1] == p.out.items.last());
                    }
                }
            },
        }
    }
}

/// In a stack, each frame follows the one before it along the stacking
/// direction without overlapping it: the alignment used along the axis is
/// the latest of the alignments of the frames so far (the earliest in a
/// negative direction), so a frame never moves back before an earlier one.
/// This holds where the spacing between frames is not negative, the frames
/// are placed as groups (hard frames), the used space fits the frame and
/// every position is a length.
pub proof fn lemma_stack_frames_follow(items: Seq<StackItem>, ctx: StackCtx, start: StackPlacing)
    requires
        spec_stack_place(items, ctx, start).ok,
        start.out.items.len() == 0,
        0 <= ctx.size.spec_get(ctx.axis).0 - ctx.used_main,
        forall|i: int|
            0 <= i < items.len() ==> match #[trigger] items[i] {
                StackItem::Absolute(v) => v.0 >= 0,
                StackItem::Fractional(_) => true,
                StackItem::Frame(f, _) => f@.kind == FrameKind::Hard,
            },
    ensures
        spec_frames_in_order(spec_stack_place(items, ctx, start).out.items, ctx.axis, ctx.dir.spec_is_positive()),
{
    lemma_stack_order_steps(items, ctx, start);
}

/// The frames of a finished stack region follow each other along the
/// stacking direction without overlapping, where the spacing is not
/// negative, the frames are hard and the used space fits the region.
pub proof fn lemma_stack_output_in_order(s: StackView)
    requires
        spec_stack_finish_fits(s),
        0 <= spec_stack_size(s).spec_get(s.axis).0 - spec_stack_ctx(s).used_main,
        forall|i: int|
            0 <= i < s.items.len() ==> match #[trigger] s.items[i] {
                StackItem::Absolute(v) => v.0 >= 0,
                StackItem::Fractional(_) => true,
                StackItem::Frame(f, _) => f@.kind == FrameKind::Hard,
            },
    ensures
        spec_frames_in_order(spec_stack_output(s).items, s.axis, s.dir.spec_is_positive()),
{
    lemma_stack_frames_follow(s.items, spec_stack_ctx(s), spec_stack_start(s));
}

} // verus!
