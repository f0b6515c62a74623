//! Finished layouts: frames of items at fixed positions.

use vstd::prelude::*;

use crate::align::FixedAlignment;
use smallvec::SmallVec;

use crate::content::{Destination, Image, Label, Location, Path, Span, StyleChain, Tag, TextItem};
use crate::geom::{in_range, Abs, Axes, NonZeroUsize, Point, Rel, Sides, Size, UNITS_PER_PT};
use crate::transform::Transform;
use crate::visualize::{ellipse, Color, FixedStroke, Geometry, Paint, Shape};

verus! {

/// The hardness of a frame.
///
/// This corresponds to whether or not the frame is considered to be the
/// innermost parent of its contents. This is used to determine the coordinate
/// reference system for gradients.
#[derive(Clone, Copy, PartialEq, Eq, Structural, Hash, Debug)]
pub enum FrameKind {
    /// A container which follows its parent's size.
    ///
    /// Soft frames are the default since they do not impact the layout of
    /// a gradient set on one of its children.
    Soft,
    /// A container which uses its own size.
    ///
    /// This is used for pages, blocks, and boxes.
    Hard,
}

impl Default for FrameKind {
    fn default() -> (r: Self)
        ensures
            r == FrameKind::Soft,
    {
        FrameKind::Soft
    }
}

impl FrameKind {
    /// Returns `true` if the frame is soft.
    pub fn is_soft(self) -> (r: bool)
        ensures
            r == (self == FrameKind::Soft),
    {
        match self {
            FrameKind::Soft => true,
            FrameKind::Hard => false,
        }
    }

    /// Returns `true` if the frame is hard.
    pub fn is_hard(self) -> (r: bool)
        ensures
            r == (self == FrameKind::Hard),
    {
        match self {
            FrameKind::Soft => false,
            FrameKind::Hard => true,
        }
    }
}

/// A finished layout with items at fixed positions.
#[derive(Debug)]
pub struct Frame {
    /// The size of the frame.
    size: Size,
    /// The baseline of the frame measured from the top. If this is `None`, the
    /// frame's implicit baseline is at the bottom.
    baseline: Option<Abs>,
    /// The items composing this layout, from the background to the
    /// foreground.
    items: Vec<(Point, FrameItem)>,
    /// The hardness of this frame.
    ///
    /// Determines whether it is a boundary for gradient drawing.
    kind: FrameKind,
}

/// The building block frames are composed of.
#[derive(Debug)]
pub enum FrameItem {
    /// A subframe with optional transformation and clipping.
    Group(GroupItem),
    /// A run of shaped text.
    Text(TextItem),
    /// A geometric shape with optional fill and stroke.
    Shape(Shape, Span),
    /// An image and its size.
    Image(Image, Size, Span),
    /// An internal or external link to a destination.
    Link(Destination, Size),
    /// An introspectable element that produced something within this frame.
    Tag(Tag),
}

/// A subframe with optional transformation and clipping.
#[derive(Debug)]
pub struct GroupItem {
    /// The group's frame.
    pub frame: Frame,
    /// A transformation to apply to the group.
    pub transform: Transform,
    /// Whether the frame should be a clipping boundary.
    pub clip_path: Option<Path>,
    /// The group's label.
    pub label: Option<Label>,
    /// The group's logical parent. All elements in this group are logically
    /// ordered immediately after the parent's start location.
    pub parent: Option<Location>,
}

impl GroupItem {
    /// A group of the frame with default settings.
    pub open spec fn spec_new(frame: Frame) -> GroupItem {
        GroupItem {
            frame,
            transform: Transform::spec_identity(),
            clip_path: None,
            label: None,
            parent: None,
        }
    }

    /// Create a new group with default settings.
    pub fn new(frame: Frame) -> (g: Self)
        ensures
            g == GroupItem::spec_new(frame),
    {
        GroupItem {
            frame,
            transform: Transform::identity(),
            clip_path: None,
            label: None,
            parent: None,
        }
    }
}

/// A physical position in a document.
#[derive(Clone, Copy, PartialEq, Eq, Hash, Debug)]
pub struct Position {
    /// The page, starting at 1.
    pub page: NonZeroUsize,
    /// The exact coordinates on the page (from the top left, as usual).
    pub point: Point,
}

/// A frame as plain values.
pub struct FrameView {
    /// The size of the frame.
    pub size: Size,
    /// The explicit baseline, if any.
    pub baseline: Option<Abs>,
    /// The items with their positions, from the background to the foreground.
    pub items: Seq<(Point, FrameItem)>,
    /// The hardness of the frame.
    pub kind: FrameKind,
}

impl FrameView {
    /// The vertical position of the frame's baseline: the explicit one, or
    /// else the bottom.
    pub open spec fn spec_baseline(self) -> Abs {
        match self.baseline {
            Some(b) => b,
            None => self.size.y,
        }
    }
}

/// The origin point.
pub open spec fn origin() -> Point {
    Point { x: Abs(0), y: Abs(0) }
}

/// Whether every item position moved by `offset` stays in the range of
/// lengths.
pub open spec fn spec_translatable(items: Seq<(Point, FrameItem)>, offset: Point) -> bool {
    forall|i: int|
        0 <= i < items.len() ==> in_range(#[trigger] items[i].0.x.0 + offset.x.0) && in_range(
            items[i].0.y.0 + offset.y.0,
        )
}

/// The point moved by `offset`.
pub open spec fn spec_moved(p: Point, offset: Point) -> Point {
    Point { x: Abs((p.x.0 + offset.x.0) as i64), y: Abs((p.y.0 + offset.y.0) as i64) }
}

/// The items with every position moved by `offset`.
pub open spec fn spec_translated(items: Seq<(Point, FrameItem)>, offset: Point) -> Seq<
    (Point, FrameItem),
> {
    Seq::new(items.len(), |i: int| (spec_moved(items[i].0, offset), items[i].1))
}

/// Whether the frame's baseline and items can be moved by `offset`.
pub open spec fn spec_can_translate(f: FrameView, offset: Point) -> bool {
    &&& spec_translatable(f.items, offset)
    &&& (f.baseline matches Some(b) ==> in_range(b.0 + offset.y.0))
}

/// The frame with its baseline and items moved by `offset`.
pub open spec fn spec_translate(f: FrameView, offset: Point) -> FrameView {
    if offset == origin() {
        f
    } else {
        FrameView {
            baseline: match f.baseline {
                Some(b) => Some(Abs((b.0 + offset.y.0) as i64)),
                None => None,
            },
            items: spec_translated(f.items, offset),
            ..f
        }
    }
}

impl View for Frame {
    type V = FrameView;

    closed spec fn view(&self) -> FrameView {
        FrameView { size: self.size, baseline: self.baseline, items: self.items@, kind: self.kind }
    }
}

/// Constructor, accessors and setters.
impl Frame {
    /// Create a new, empty frame.
    pub fn new(size: Size, kind: FrameKind) -> (f: Self)
        ensures
            f@ == (FrameView { size, baseline: None, items: Seq::empty(), kind }),
    {
        Frame { size, baseline: None, items: Vec::new(), kind }
    }

    /// Create a new, empty soft frame.
    pub fn soft(size: Size) -> (f: Self)
        ensures
            f@ == (FrameView { size, baseline: None, items: Seq::empty(), kind: FrameKind::Soft }),
    {
        Self::new(size, FrameKind::Soft)
    }

    /// Create a new, empty hard frame.
    pub fn hard(size: Size) -> (f: Self)
        ensures
            f@ == (FrameView { size, baseline: None, items: Seq::empty(), kind: FrameKind::Hard }),
    {
        Self::new(size, FrameKind::Hard)
    }

    /// Sets the frame's hardness.
    pub fn set_kind(&mut self, kind: FrameKind)
        ensures
            final(self)@ == (FrameView { kind, ..old(self)@ }),
    {
        self.kind = kind;
    }

    /// Sets the frame's hardness builder-style.
    pub fn with_kind(self, kind: FrameKind) -> (f: Self)
        ensures
            f@ == (FrameView { kind, ..self@ }),
    {
        let mut f = self;
        f.kind = kind;
        f
    }

    /// Whether the frame is hard or soft.
    pub fn kind(&self) -> (r: FrameKind)
        ensures
            r == self@.kind,
    {
        self.kind
    }

    /// Whether the frame contains no items.
    pub fn is_empty(&self) -> (r: bool)
        ensures
            r == (self@.items.len() == 0),
    {
        self.items.len() == 0
    }

    /// The size of the frame.
    pub fn size(&self) -> (r: Size)
        ensures
            r == self@.size,
    {
        self.size
    }

    /// The size of the frame, mutably.
    pub fn size_mut(&mut self) -> (r: &mut Size)
        ensures
            *r == old(self)@.size,
            final(self)@ == (FrameView { size: *final(r), ..old(self)@ }),
    {
        &mut self.size
    }

    /// Set the size of the frame.
    pub fn set_size(&mut self, size: Size)
        ensures
            final(self)@ == (FrameView { size, ..old(self)@ }),
    {
        self.size = size;
    }

    /// The width of the frame.
    pub fn width(&self) -> (r: Abs)
        ensures
            r == self@.size.x,
    {
        self.size.x
    }

    /// The height of the frame.
    pub fn height(&self) -> (r: Abs)
        ensures
            r == self@.size.y,
    {
        self.size.y
    }

    /// The vertical position of the frame's baseline.
    pub fn baseline(&self) -> (r: Abs)
        ensures
            r == self@.spec_baseline(),
    {
        match self.baseline {
            Some(b) => b,
            None => self.size.y,
        }
    }

    /// Whether the frame has a non-default baseline.
    pub fn has_baseline(&self) -> (r: bool)
        ensures
            r == self@.baseline is Some,
    {
        self.baseline.is_some()
    }

    /// Set the frame's baseline from the top.
    pub fn set_baseline(&mut self, baseline: Abs)
        ensures
            final(self)@ == (FrameView { baseline: Some(baseline), ..old(self)@ }),
    {
        self.baseline = Some(baseline);
    }

    /// The distance from the baseline to the top of the frame.
    ///
    /// This is the same as `baseline()`, but more in line with the terminology
    /// used in math layout.
    pub fn ascent(&self) -> (r: Abs)
        ensures
            r == self@.spec_baseline(),
    {
        self.baseline()
    }

    /// The distance from the baseline to the bottom of the frame.
    pub fn descent(&self) -> (r: Abs)
        requires
            in_range(self@.size.y.0 - self@.spec_baseline().0),
        ensures
            r.0 == self@.size.y.0 - self@.spec_baseline().0,
    {
        self.size.y.minus(self.baseline())
    }

    /// The items inside this frame alongside their positions relative to the
    /// top-left of the frame, from the background to the foreground.
    pub fn items(&self) -> (r: &[(Point, FrameItem)])
        ensures
            r@ == self@.items,
    {
        self.items.as_slice()
    }
}

/// Insert items and subframes.
impl Frame {
    /// The layer the next item will be added on. This corresponds to the number
    /// of items in the frame.
    pub fn layer(&self) -> (r: usize)
        ensures
            r == self@.items.len(),
    {
        self.items.len()
    }

    /// Add an item at a position in the foreground.
    pub fn push(&mut self, pos: Point, item: FrameItem)
        ensures
            final(self)@ == (FrameView { items: old(self)@.items.push((pos, item)), ..old(self)@ }),
    {
        self.items.push((pos, item));
    }

    /// Add multiple items in the foreground.
    ///
    /// The first item will be the one that is most in the background.
    pub fn push_multiple(&mut self, items: Vec<(Point, FrameItem)>)
        ensures
            final(self)@ == (FrameView { items: old(self)@.items + items@, ..old(self)@ }),
    {
        let mut items = items;
        self.items.append(&mut items);
    }

    /// Insert an item at the given layer in the frame.
    pub fn insert(&mut self, layer: usize, pos: Point, item: FrameItem)
        requires
            layer <= old(self)@.items.len(),
        ensures
            final(self)@ == (FrameView {
                items: old(self)@.items.insert(layer as int, (pos, item)),
                ..old(self)@
            }),
    {
        self.items.insert(layer, (pos, item));
    }

    /// Add an item at a position in the background.
    pub fn prepend(&mut self, pos: Point, item: FrameItem)
        ensures
            final(self)@ == (FrameView {
                items: seq![(pos, item)] + old(self)@.items,
                ..old(self)@
            }),
    {
        self.insert(0, pos, item);
        assert(self@.items =~= seq![(pos, item)] + old(self)@.items);
    }

    /// Add multiple items in the background.
    ///
    /// The first item will be the one that is most in the background.
    pub fn prepend_multiple(&mut self, items: Vec<(Point, FrameItem)>)
        ensures
            final(self)@ == (FrameView { items: items@ + old(self)@.items, ..old(self)@ }),
    {
        let mut front = items;
        let mut back = Vec::new();
        std::mem::swap(&mut back, &mut self.items);
        front.append(&mut back);
        self.items = front;
    }
}

/// Whether a frame `frame` added to `f` is inlined: its items are added one
/// by one instead of as a group. Big frames and hard frames are not inlined.
pub open spec fn spec_should_inline(f: FrameView, frame: FrameView) -> bool {
    frame.kind == FrameKind::Soft && (f.items.len() == 0 || frame.items.len() <= 5)
}

/// The items placed at `pos`: moved by `pos` unless it is the origin.
pub open spec fn spec_placed(items: Seq<(Point, FrameItem)>, pos: Point) -> Seq<(Point, FrameItem)> {
    if pos == origin() {
        items
    } else {
        spec_translated(items, pos)
    }
}

/// The frame `f` with the items of a frame placed at `pos` and inserted at
/// `layer`.
pub open spec fn spec_inline(
    f: FrameView,
    layer: int,
    pos: Point,
    items: Seq<(Point, FrameItem)>,
) -> FrameView {
    FrameView {
        items: f.items.subrange(0, layer) + spec_placed(items, pos) + f.items.subrange(
            layer,
            f.items.len() as int,
        ),
        ..f
    }
}

/// The frame `f` with a frame added at `pos` in the foreground.
pub open spec fn spec_push_frame(f: FrameView, pos: Point, frame: Frame) -> FrameView {
    if spec_should_inline(f, frame@) {
        spec_inline(f, f.items.len() as int, pos, frame@.items)
    } else {
        FrameView { items: f.items.push((pos, FrameItem::Group(GroupItem::spec_new(frame)))), ..f }
    }
}

/// The frame `f` with a frame added at `pos` in the background.
pub open spec fn spec_prepend_frame(f: FrameView, pos: Point, frame: Frame) -> FrameView {
    if spec_should_inline(f, frame@) {
        spec_inline(f, 0, pos, frame@.items)
    } else {
        FrameView {
            items: seq![(pos, FrameItem::Group(GroupItem::spec_new(frame)))] + f.items,
            ..f
        }
    }
}

impl Frame {
    /// Add a frame at a position in the foreground.
    ///
    /// Automatically decides whether to inline the frame or to include it as a
    /// group based on the number of items in it.
    pub fn push_frame(&mut self, pos: Point, frame: Frame)
        requires
            spec_should_inline(old(self)@, frame@) ==> spec_translatable(frame@.items, pos),
        ensures
            final(self)@ == spec_push_frame(old(self)@, pos, frame),
    {
        if self.should_inline(&frame) {
            let layer = self.layer();
            self.inline(layer, pos, frame);
        } else {
            self.push(pos, FrameItem::Group(GroupItem::new(frame)));
        }
    }

    /// Add a frame at a position in the background.
    pub fn prepend_frame(&mut self, pos: Point, frame: Frame)
        requires
            spec_should_inline(old(self)@, frame@) ==> spec_translatable(frame@.items, pos),
        ensures
            final(self)@ == spec_prepend_frame(old(self)@, pos, frame),
    {
        if self.should_inline(&frame) {
            self.inline(0, pos, frame);
        } else {
            self.prepend(pos, FrameItem::Group(GroupItem::new(frame)));
        }
    }

    /// Whether the given frame should be inlined.
    fn should_inline(&self, frame: &Frame) -> (r: bool)
        ensures
            r == spec_should_inline(self@, frame@),
    {
        frame.kind().is_soft() && (self.items.len() == 0 || frame.items.len() <= 5)
    }

    /// Inline a frame at the given layer.
    fn inline(&mut self, layer: usize, pos: Point, frame: Frame)
        requires
            layer <= old(self)@.items.len(),
            spec_translatable(frame@.items, pos),
        ensures
            final(self)@ == spec_inline(old(self)@, layer as int, pos, frame@.items),
    {
        let ghost start = self@;
        let mut moved = frame.items;
        if !pos.is_zero() {
            move_items(&mut moved, pos);
            assert(pos != origin());
        } else {
            assert(pos.x == Abs(0) && pos.y == Abs(0));
        }
        let mut tail = self.items.split_off(layer);
        self.items.append(&mut moved);
        self.items.append(&mut tail);
        assert(self@.items =~= spec_inline(start, layer as int, pos, frame@.items).items);
    }
}

/// The number of items that hiding keeps of `items`: the tags, and the groups
/// of which hiding keeps something.
pub open spec fn spec_hidden_len(items: Seq<(Point, FrameItem)>) -> nat
    decreases items,
{
    if items.len() == 0 {
        0
    } else {
        let rest = spec_hidden_len(items.drop_last());
        match items.last().1 {
            FrameItem::Group(g) => {
                proof {
                    lemma_group_items_decrease(items, g);
                }
                if spec_hidden_len(g.frame@.items) > 0 {
                    rest + 1
                } else {
                    rest
                }
            },
            FrameItem::Tag(_) => rest + 1,
            _ => rest,
        }
    }
}

/// Whether `new` is what hiding makes of the items `old`: the content is
/// dropped and the metadata kept. Tags stay as they are; a group stays, with
/// its own items hidden in turn, if hiding keeps something of them; every
/// other item is dropped. The order of what stays is kept.
pub open spec fn spec_hides(old: Seq<(Point, FrameItem)>, new: Seq<(Point, FrameItem)>) -> bool
    decreases old,
{
    if old.len() == 0 {
        new.len() == 0
    } else {
        let p = old.last().0;
        match old.last().1 {
            FrameItem::Group(g) => {
                proof {
                    lemma_group_items_decrease(old, g);
                }
                if spec_hidden_len(g.frame@.items) == 0 {
                    spec_hides(old.drop_last(), new)
                } else {
                    &&& new.len() > 0
                    &&& new.last().0 == p
                    &&& new.last().1 matches FrameItem::Group(h)
                    &&& h.transform == g.transform
                    &&& h.clip_path == g.clip_path
                    &&& h.label == g.label
                    &&& h.parent == g.parent
                    &&& h.frame@.size == g.frame@.size
                    &&& h.frame@.baseline == g.frame@.baseline
                    &&& h.frame@.kind == g.frame@.kind
                    &&& spec_hides(g.frame@.items, h.frame@.items)
                    &&& spec_hides(old.drop_last(), new.drop_last())
                }
            },
            FrameItem::Tag(t) => {
                &&& new.len() > 0
                &&& new.last() == (p, FrameItem::Tag(t))
                &&& spec_hides(old.drop_last(), new.drop_last())
            },
            _ => spec_hides(old.drop_last(), new),
        }
    }
}

/// The items of a group in the last item of a sequence are smaller than the
/// sequence.
pub proof fn lemma_group_items_decrease(items: Seq<(Point, FrameItem)>, g: GroupItem)
    requires
        items.len() > 0,
        items.last().1 == FrameItem::Group(g),
    ensures
        decreases_to!(items => g.frame@.items),
{
    lemma_group_at_decreases(items, items.len() - 1, g);
}

/// The items of a group in a sequence of items are smaller than the
/// sequence.
pub proof fn lemma_group_at_decreases(items: Seq<(Point, FrameItem)>, i: int, g: GroupItem)
    requires
        0 <= i < items.len(),
        items[i].1 == FrameItem::Group(g),
    ensures
        decreases_to!(items => g.frame@.items),
{
    broadcast use vstd::std_specs::vec::axiom_vec_decreases_to_view;

    let last = items[i];
    assert(decreases_to!(items => last));
    assert(decreases_to!(last => last.1));
    assert(decreases_to!(last.1 => last.1->Group_0));
    assert(decreases_to!(g => g.frame));
    assert(decreases_to!(g.frame => g.frame.items));
    assert(decreases_to!(g.frame.items => g.frame.items@));
    assert(g.frame@.items == g.frame.items@);
}

/// Hiding keeps exactly `spec_hidden_len` items, and hiding what hiding left
/// changes nothing: everything left is metadata that hiding keeps.
pub proof fn lemma_hiding_idempotent(a: Seq<(Point, FrameItem)>, b: Seq<(Point, FrameItem)>)
    requires
        spec_hides(a, b),
    ensures
        b.len() == spec_hidden_len(a),
        spec_hidden_len(b) == b.len(),
        spec_hides(b, b),
    decreases a,
{
    if a.len() > 0 {
        let a2 = a.drop_last();
        match a.last().1 {
            FrameItem::Group(g) => {
                lemma_group_items_decrease(a, g);
                if spec_hidden_len(g.frame@.items) == 0 {
                    lemma_hiding_idempotent(a2, b);
                } else {
                    let b2 = b.drop_last();
                    let h = b.last().1->Group_0;
                    lemma_hiding_idempotent(g.frame@.items, h.frame@.items);
                    lemma_hiding_idempotent(a2, b2);
                    lemma_group_items_decrease(b, h);
                    assert(b2.len() == spec_hidden_len(b2));
                }
            },
            FrameItem::Tag(_) => {
                lemma_hiding_idempotent(a2, b.drop_last());
            },
            _ => {
                lemma_hiding_idempotent(a2, b);
            },
        }
    }
}

/// Hide the items: drop the content and keep the metadata.
fn hide_items(items: &mut Vec<(Point, FrameItem)>)
    ensures
        spec_hides(old(items)@, final(items)@),
        final(items)@.len() == spec_hidden_len(old(items)@),
    decreases old(items)@,
{
    let ghost before = items@;
    let mut out: Vec<(Point, FrameItem)> = Vec::new();
    let mut i: usize = 0;
    while i < items.len()
        invariant
            before == old(items)@,
            items@.len() == before.len(),
            i <= before.len(),
            forall|k: int| i <= k < before.len() ==> #[trigger] items@[k] == before[k],
            spec_hides(before.take(i as int), out@),
            out@.len() == spec_hidden_len(before.take(i as int)),
        decreases before.len() - i,
    {
        let ghost done = before.take(i as int);
        let ghost next = before.take(i + 1);
        assert(next.drop_last() =~= done);
        assert(next.last() == before[i as int]);
        let mut entry: (Point, FrameItem) = (Point::zero(), FrameItem::Tag(Tag(0)));
        std::mem::swap(&mut entry, &mut items[i]);
        let (p, item) = entry;
        match item {
            FrameItem::Group(g) => {
                let mut g = g;
                proof {
                    lemma_group_at_decreases(before, i as int, g);
                    lemma_group_items_decrease(next, g);
                }
                let ghost inner = g.frame.items@;
                hide_items(&mut g.frame.items);
                if g.frame.items.len() > 0 {
                    let ghost prev = out@;
                    out.push((p, FrameItem::Group(g)));
                    assert(out@.drop_last() =~= prev);
                }
            },
            FrameItem::Tag(t) => {
                let ghost prev = out@;
                out.push((p, FrameItem::Tag(t)));
                assert(out@.drop_last() =~= prev);
            },
            _ => {},
        }
        i += 1;
    }
    assert(before.take(before.len() as int) =~= before);
    *items = out;
}

/// A setting of the group that wraps a frame's contents.
enum GroupSetting {
    /// The group's transformation.
    Transform(Transform),
    /// The group's clipping path.
    Clip(Path),
    /// The group's label.
    Label(Label),
    /// The group's logical parent.
    Parent(Location),
}

/// The default group of `frame` with one setting applied.
spec fn spec_setting_applied(frame: Frame, setting: GroupSetting) -> GroupItem {
    let g = GroupItem::spec_new(frame);
    match setting {
        GroupSetting::Transform(t) => GroupItem { transform: t, ..g },
        GroupSetting::Clip(c) => GroupItem { clip_path: Some(c), ..g },
        GroupSetting::Label(l) => GroupItem { label: Some(l), ..g },
        GroupSetting::Parent(p) => GroupItem { parent: Some(p), ..g },
    }
}

/// The frame that wraps `frame` in a single group `g`: a soft frame of the
/// same size and baseline.
pub open spec fn spec_wrapped(frame: FrameView, g: GroupItem) -> FrameView {
    FrameView {
        size: frame.size,
        baseline: frame.baseline,
        items: seq![(origin(), FrameItem::Group(g))],
        kind: FrameKind::Soft,
    }
}

/// The link items that late-stage processing adds to a frame of the given
/// size: one per destination, covering the whole frame.
pub open spec fn spec_links(dests: Seq<Destination>, size: Size) -> Seq<(Point, FrameItem)> {
    Seq::new(dests.len(), |i: int| (origin(), FrameItem::Link(dests[i], size)))
}

/// Whether `new` is the frame `f` after late-stage processing with the given
/// link destinations and hiding: an empty frame stays as it is; otherwise
/// the links are added in the foreground and, if asked, the content is hidden.
pub open spec fn spec_post_processed(
    f: FrameView,
    dests: Seq<Destination>,
    hide: bool,
    new: FrameView,
) -> bool {
    if f.items.len() == 0 {
        new == f
    } else {
        let linked = f.items + spec_links(dests, f.size);
        &&& new.size == f.size
        &&& new.baseline == f.baseline
        &&& new.kind == f.kind
        &&& if hide {
            spec_hides(linked, new.items)
        } else {
            new.items == linked
        }
    }
}

/// The link destinations of a piece of content, held in a small vector.
#[verifier::external_body]
pub struct Destinations {
    dests: SmallVec<[Destination; 1]>,
}

/// The destinations held, in order.
pub uninterp spec fn destinations(d: Destinations) -> Seq<Destination>;

/// Calls `SmallVec::into_vec`, which hands out the small vector's items as a
/// vector, in the same order.
#[verifier::external_body]
fn destinations_into_vec(d: Destinations) -> (r: Vec<Destination>)
    ensures
        r@ == destinations(d),
{
    d.dests.into_vec()
}

/// Calls `SmallVec::from_vec`, which makes a small vector holding the
/// vector's items, in the same order.
#[verifier::external_body]
fn destinations_from_vec(v: Vec<Destination>) -> (r: Destinations)
    ensures
        destinations(r) == v@,
{
    Destinations { dests: SmallVec::from_vec(v) }
}

impl Destinations {
    /// The destinations of the vector, in the same order.
    pub fn new(dests: Vec<Destination>) -> (r: Self)
        ensures
            destinations(r) == dests@,
    {
        destinations_from_vec(dests)
    }
}

/// The shapes of a styled rectangle as frame items at `pos`.
pub open spec fn spec_shape_items(shapes: Seq<Shape>, pos: Point, span: Span) -> Seq<
    (Point, FrameItem),
> {
    Seq::new(shapes.len(), |i: int| (pos, FrameItem::Shape(shapes[i], span)))
}

/// The outset resolved relative to the size of a frame.
pub open spec fn spec_outset(size: Size, outset: Sides<Rel<Abs>>) -> (int, int, int, int) {
    (
        outset.left.spec_relative_to(size.x),
        outset.top.spec_relative_to(size.y),
        outset.right.spec_relative_to(size.x),
        outset.bottom.spec_relative_to(size.y),
    )
}

/// Whether the rectangle grown by the outset around a frame of size `size`
/// fits the range of lengths.
pub open spec fn spec_outset_fits(size: Size, outset: Sides<Rel<Abs>>) -> bool {
    let (l, t, r, b) = spec_outset(size, outset);
    &&& outset.spec_resolvable(size)
    &&& in_range(l + r)
    &&& in_range(t + b)
    &&& in_range(size.x.0 + (l + r))
    &&& in_range(size.y.0 + (t + b))
    &&& l > i64::MIN
    &&& t > i64::MIN
}

/// The size of the rectangle grown by the outset around a frame.
pub open spec fn spec_outset_size(size: Size, outset: Sides<Rel<Abs>>) -> Size {
    let (l, t, r, b) = spec_outset(size, outset);
    Axes { x: Abs((size.x.0 + (l + r)) as i64), y: Abs((size.y.0 + (t + b)) as i64) }
}

/// The position of the rectangle grown by the outset around a frame.
pub open spec fn spec_outset_pos(size: Size, outset: Sides<Rel<Abs>>) -> Point {
    let (l, t, r, b) = spec_outset(size, outset);
    Point { x: Abs((-l) as i64), y: Abs((-t) as i64) }
}

/// Whether `styled` may draw the shapes `shapes` for a rectangle of size
/// `size`.
pub open spec fn spec_draws<F: Fn(Size) -> Vec<Shape>>(
    styled: F,
    size: Size,
    shapes: Seq<Shape>,
) -> bool {
    exists|v: Vec<Shape>| styled.ensures((size,), v) && v@ == shapes
}

/// Modify the frame.
impl Frame {
    /// Apply late-stage properties from the style chain to this frame: the
    /// link destinations and whether the content is hidden.
    ///
    /// This must be called on all frames produced by elements that manually
    /// handle styles (because their children can have varying styles).
    pub fn post_processed(self, styles: StyleChain) -> (f: Self)
        ensures
            spec_post_processed(self@, styles.dests@, styles.hidden, f@),
    {
        let mut f = self;
        f.post_process(styles);
        f
    }

    /// Post process in place.
    pub fn post_process(&mut self, styles: StyleChain)
        ensures
            spec_post_processed(old(self)@, styles.dests@, styles.hidden, final(self)@),
    {
        if !self.is_empty() {
            let dests = destinations_from_vec(styles.dests);
            self.post_process_raw(dests, styles.hidden);
        }
    }

    /// Apply raw late-stage properties from the raw data.
    pub fn post_process_raw(&mut self, dests: Destinations, hide: bool)
        ensures
            spec_post_processed(old(self)@, destinations(dests), hide, final(self)@),
    {
        if !self.is_empty() {
            let size = self.size;
            let dests = destinations_into_vec(dests);
            let mut links: Vec<(Point, FrameItem)> = Vec::new();
            let mut i: usize = 0;
            while i < dests.len()
                invariant
                    i <= dests@.len(),
                    links@ =~= spec_links(dests@.take(i as int), size),
                decreases dests@.len() - i,
            {
                links.push((Point::zero(), FrameItem::Link(dests[i], size)));
                i += 1;
            }
            assert(dests@.take(dests@.len() as int) =~= dests@);
            self.push_multiple(links);
            if hide {
                self.hide_content();
            }
        }
    }

    /// Hide all content in the frame, but keep metadata.
    pub fn hide_content(&mut self)
        ensures
            final(self)@.size == old(self)@.size,
            final(self)@.baseline == old(self)@.baseline,
            final(self)@.kind == old(self)@.kind,
            spec_hides(old(self)@.items, final(self)@.items),
            final(self)@.items.len() == spec_hidden_len(old(self)@.items),
    {
        hide_items(&mut self.items);
    }

    /// Add a background fill.
    pub fn fill(&mut self, fill: Paint)
        ensures
            final(self)@ == (FrameView {
                items: seq![
                    (
                        origin(),
                        FrameItem::Shape(
                            Geometry::Rect(old(self)@.size).spec_filled(fill),
                            Span::spec_detached(),
                        ),
                    ),
                ] + old(self)@.items,
                ..old(self)@
            }),
    {
        let shape = Geometry::Rect(self.size()).filled(fill);
        self.prepend(Point::zero(), FrameItem::Shape(shape, Span::detached()));
    }

    /// Add a fill and stroke with an outset to the frame: `styled` draws the
    /// rectangle of the given size with the fill, stroke and corner radii,
    /// and its shapes are added in the background, around the frame by the
    /// outset resolved relative to the frame's size.
    pub fn fill_and_stroke<F>(&mut self, styled: F, outset: &Sides<Rel<Abs>>, span: Span) where
        F: Fn(Size) -> Vec<Shape>,

        requires
            spec_outset_fits(old(self)@.size, *outset),
            forall|s: Size| styled.requires((s,)),
        ensures
            exists|shapes: Seq<Shape>|
                {
                    &&& spec_draws(styled, spec_outset_size(old(self)@.size, *outset), shapes)
                    &&& final(self)@ == (FrameView {
                        items: spec_shape_items(
                            shapes,
                            spec_outset_pos(old(self)@.size, *outset),
                            span,
                        ) + old(self)@.items,
                        ..old(self)@
                    })
                },
    {
        let ghost start = self@;
        let resolved = outset.relative_to(self.size());
        let size = Axes {
            x: self.size.x.plus(resolved.left.plus(resolved.right)),
            y: self.size.y.plus(resolved.top.plus(resolved.bottom)),
        };
        let pos = Point::new(resolved.left.neg(), resolved.top.neg());
        assert(size == spec_outset_size(start.size, *outset));
        assert(pos == spec_outset_pos(start.size, *outset));
        let shapes = styled(size);
        proof {
            assert(spec_draws(styled, size, shapes@));
        }
        let mut items: Vec<(Point, FrameItem)> = Vec::new();
        let mut i: usize = 0;
        while i < shapes.len()
            invariant
                i <= shapes@.len(),
                items@ =~= spec_shape_items(shapes@.take(i as int), pos, span),
            decreases shapes@.len() - i,
        {
            items.push((pos, FrameItem::Shape(shapes[i], span)));
            i += 1;
        }
        assert(shapes@.take(shapes@.len() as int) =~= shapes@);
        self.prepend_multiple(items);
        assert(self@ == (FrameView {
            items: spec_shape_items(shapes@, spec_outset_pos(start.size, *outset), span)
                + start.items,
            ..start
        }));
    }

    /// Arbitrarily transform the contents of the frame.
    pub fn transform(&mut self, transform: Transform)
        ensures
            old(self)@.items.len() == 0 ==> final(self)@ == old(self)@,
            old(self)@.items.len() != 0 ==> final(self)@ == spec_wrapped(
                old(self)@,
                GroupItem { transform, ..GroupItem::spec_new(*old(self)) },
            ),
    {
        if !self.is_empty() {
            self.group(GroupSetting::Transform(transform));
        }
    }

    /// Clip the contents of a frame to a clip path.
    ///
    /// The clip path can be the size of the frame in the case of a
    /// rectangular frame. In the case of a frame with rounded corner,
    /// this should be a path that matches the frame's outline.
    pub fn clip(&mut self, clip_path: Path)
        ensures
            old(self)@.items.len() == 0 ==> final(self)@ == old(self)@,
            old(self)@.items.len() != 0 ==> final(self)@ == spec_wrapped(
                old(self)@,
                GroupItem { clip_path: Some(clip_path), ..GroupItem::spec_new(*old(self)) },
            ),
    {
        if !self.is_empty() {
            self.group(GroupSetting::Clip(clip_path));
        }
    }

    /// Add a label to the frame.
    pub fn label(&mut self, label: Label)
        ensures
            final(self)@ == spec_wrapped(
                old(self)@,
                GroupItem { label: Some(label), ..GroupItem::spec_new(*old(self)) },
            ),
    {
        self.group(GroupSetting::Label(label));
    }

    /// Set a parent for the frame. As a result, all elements in the frame
    /// become logically ordered immediately after the given location.
    pub fn set_parent(&mut self, parent: Location)
        ensures
            old(self)@.items.len() == 0 ==> final(self)@ == old(self)@,
            old(self)@.items.len() != 0 ==> final(self)@ == spec_wrapped(
                old(self)@,
                GroupItem { parent: Some(parent), ..GroupItem::spec_new(*old(self)) },
            ),
    {
        if !self.is_empty() {
            self.group(GroupSetting::Parent(parent));
        }
    }

    /// Wrap the frame's contents in a group with the given setting.
    fn group(&mut self, setting: GroupSetting)
        ensures
            final(self)@ == spec_wrapped(old(self)@, spec_setting_applied(*old(self), setting)),
    {
        let mut wrapper = Frame::soft(self.size);
        wrapper.baseline = self.baseline;
        std::mem::swap(self, &mut wrapper);
        let mut group = GroupItem::new(wrapper);
        match setting {
            GroupSetting::Transform(t) => {
                group.transform = t;
            },
            GroupSetting::Clip(c) => {
                group.clip_path = Some(c);
            },
            GroupSetting::Label(l) => {
                group.label = Some(l);
            },
            GroupSetting::Parent(p) => {
                group.parent = Some(p);
            },
        }
        self.push(Point::zero(), FrameItem::Group(group));
        assert(self@.items =~= seq![(origin(), FrameItem::Group(group))]);
    }

    /// Remove all items from the frame.
    pub fn clear(&mut self)
        ensures
            final(self)@ == (FrameView { items: Seq::empty(), ..old(self)@ }),
    {
        self.items.clear();
    }

    /// Move the baseline and contents of the frame by an offset.
    pub fn translate(&mut self, offset: Point)
        requires
            spec_can_translate(old(self)@, offset),
        ensures
            final(self)@ == spec_translate(old(self)@, offset),
    {
        if !offset.is_zero() {
            match self.baseline {
                Some(b) => {
                    self.baseline = Some(Abs(b.0 + offset.y.0));
                },
                None => {},
            }
            move_items(&mut self.items, offset);
            assert(offset != origin());
        } else {
            assert(offset.x == Abs(0) && offset.y == Abs(0));
            assert(offset == origin());
        }
    }

    /// Adjust the frame's size, translate the original content by an offset
    /// computed according to the given alignments, and return the amount of
    /// offset.
    pub fn resize(&mut self, target: Size, align: Axes<FixedAlignment>) -> (r: Point)
        requires
            in_range(target.x.0 - old(self)@.size.x.0),
            in_range(target.y.0 - old(self)@.size.y.0),
            spec_can_translate(old(self)@, spec_resize_offset(old(self)@.size, target, align)),
        ensures
            old(self)@.size == target ==> r == origin() && final(self)@ == old(self)@,
            old(self)@.size != target ==> r == spec_resize_offset(old(self)@.size, target, align)
                && final(self)@ == spec_translate(FrameView { size: target, ..old(self)@ }, r),
    {
        if self.size.same(target) {
            return Point::zero();
        }
        let offset = Point {
            x: align.x.position(target.x.minus(self.size.x)),
            y: align.y.position(target.y.minus(self.size.y)),
        };
        self.size = target;
        self.translate(offset);
        offset
    }
}

/// Moving a frame by one offset and then by another moves it by the sum of
/// the offsets.
pub proof fn lemma_translations_add(f: FrameView, a: Point, b: Point)
    requires
        spec_can_translate(f, a),
        spec_can_translate(spec_translate(f, a), b),
        in_range(a.x.0 + b.x.0),
        in_range(a.y.0 + b.y.0),
    ensures
        spec_can_translate(f, spec_moved(a, b)),
        spec_translate(spec_translate(f, a), b) == spec_translate(f, spec_moved(a, b)),
{
    let ab = spec_moved(a, b);
    let fa = spec_translate(f, a);
    assert forall|p: Point| #[trigger] spec_moved(p, origin()) == p by {
        assert(spec_moved(p, origin()).x == p.x);
        assert(spec_moved(p, origin()).y == p.y);
    }
    assert forall|p: Point, q: Point| #[trigger] spec_moved(p, q) == spec_moved(q, p) by {
    }
    assert(fa.items.len() == f.items.len());
    assert forall|i: int| 0 <= i < f.items.len() implies in_range(
        #[trigger] f.items[i].0.x.0 + ab.x.0,
    ) && in_range(f.items[i].0.y.0 + ab.y.0) by {
        if a == origin() {
            assert(fa.items[i] == f.items[i]);
        } else {
            assert(fa.items[i].0 == spec_moved(f.items[i].0, a));
        }
        assert(in_range(fa.items[i].0.x.0 + b.x.0));
        assert(in_range(fa.items[i].0.y.0 + b.y.0));
    }
    if a == origin() {
        assert(ab == b);
    } else if b == origin() {
        assert(ab == a);
    } else {
        let lhs = spec_translate(fa, b);
        let rhs = spec_translate(f, ab);
        assert(lhs.items =~= spec_translated(f.items, ab));
        if ab == origin() {
            assert(lhs.items =~= f.items);
            assert(lhs.baseline == f.baseline);
        } else {
            assert(lhs.items =~= rhs.items);
        }
    }
}

/// Move every item position by `offset`.
fn move_items(items: &mut Vec<(Point, FrameItem)>, offset: Point)
    requires
        spec_translatable(old(items)@, offset),
    ensures
        final(items)@ == spec_translated(old(items)@, offset),
{
    let ghost before = items@;
    let mut i: usize = 0;
    while i < items.len()
        invariant
            items@.len() == before.len(),
            spec_translatable(before, offset),
            forall|k: int|
                0 <= k < i ==> #[trigger] items@[k] == (spec_moved(before[k].0, offset), before[k].1),
            forall|k: int| i <= k < before.len() ==> #[trigger] items@[k] == before[k],
        decreases before.len() - i,
    {
        let p = items[i].0;
        items[i].0 = Point { x: Abs(p.x.0 + offset.x.0), y: Abs(p.y.0 + offset.y.0) };
        i += 1;
    }
    assert(items@ =~= spec_translated(before, offset));
}

/// The offset by which resizing a frame of size `size` to `target` moves its
/// contents, given the alignments.
pub open spec fn spec_resize_offset(size: Size, target: Size, align: Axes<FixedAlignment>) -> Point {
    Point {
        x: Abs(align.x.spec_position(Abs((target.x.0 - size.x.0) as i64)) as i64),
        y: Abs(align.y.spec_position(Abs((target.y.0 - size.y.0) as i64)) as i64),
    }
}

/// The translucent teal of the debugging background.
pub open spec fn debug_teal() -> Paint {
    Paint::Solid(Color { r: 0x39, g: 0xcc, b: 0xcc, a: 128 })
}

/// The red of the debugging baseline.
pub open spec fn debug_red() -> Paint {
    Paint::Solid(Color { r: 0xff, g: 0x41, b: 0x36, a: 255 })
}

/// The green of the debugging markers.
pub open spec fn debug_green() -> Paint {
    Paint::Solid(Color { r: 0x2e, g: 0xcc, b: 0x40, a: 255 })
}

/// The frame `f` with a full size teal background and a red baseline one
/// point thick, in the two bottom layers.
pub open spec fn spec_mark_box(f: FrameView) -> FrameView {
    let background = FrameItem::Shape(
        Geometry::Rect(f.size).spec_filled(debug_teal()),
        Span::spec_detached(),
    );
    let baseline = FrameItem::Shape(
        Geometry::Line(Point { x: f.size.x, y: Abs(0) }).spec_stroked(
            FixedStroke::spec_from_pair(debug_red(), Abs(UNITS_PER_PT)),
        ),
        Span::spec_detached(),
    );
    FrameView {
        items: seq![
            (origin(), background),
            (Point { x: Abs(0), y: f.spec_baseline() }, baseline),
        ] + f.items,
        ..f
    }
}

/// Tools for debugging.
impl Frame {
    /// Add a full size aqua background and a red baseline for debugging.
    pub fn mark_box(self) -> (f: Self)
        ensures
            f@ == spec_mark_box(self@),
    {
        let mut f = self;
        f.mark_box_in_place();
        f
    }

    /// Debug in place. Add a full size aqua background and a red baseline for
    /// debugging.
    pub fn mark_box_in_place(&mut self)
        ensures
            final(self)@ == spec_mark_box(old(self)@),
    {
        let ghost start = self@;
        let teal = Paint::Solid(Color::teal().with_alpha(128));
        self.insert(
            0,
            Point::zero(),
            FrameItem::Shape(Geometry::Rect(self.size).filled(teal), Span::detached()),
        );
        let red = FixedStroke::from_pair(Paint::Solid(Color::red()), Abs::pt(1));
        let y = self.baseline();
        self.insert(
            1,
            Point::with_y(y),
            FrameItem::Shape(
                Geometry::Line(Point::with_x(self.size.x)).stroked(red),
                Span::detached(),
            ),
        );
        assert(self@.items =~= spec_mark_box(start).items);
    }

    /// Add a green marker at a position for debugging: a circle with a radius
    /// of two points around it.
    pub fn mark_point(&mut self, pos: Point)
        requires
            in_range(pos.x.0 - 2 * UNITS_PER_PT),
            in_range(pos.y.0 - 2 * UNITS_PER_PT),
        ensures
            final(self)@ == (FrameView {
                items: old(self)@.items.push(
                    (
                        Point {
                            x: Abs((pos.x.0 - 2 * UNITS_PER_PT) as i64),
                            y: Abs((pos.y.0 - 2 * UNITS_PER_PT) as i64),
                        },
                        FrameItem::Shape(
                            Shape {
                                geometry: Geometry::Ellipse(
                                    Axes { x: Abs((4 * UNITS_PER_PT) as i64), y: Abs((4 * UNITS_PER_PT) as i64) },
                                ),
                                fill: Some(debug_green()),
                                stroke: None,
                            },
                            Span::spec_detached(),
                        ),
                    ),
                ),
                ..old(self)@
            }),
    {
        let radius = Abs::pt(2);
        let diameter = Abs::pt(4);
        let corner = Point::new(pos.x.minus(radius), pos.y.minus(radius));
        let shape = ellipse(Axes::new(diameter, diameter), Some(Paint::Solid(Color::green())), None);
        self.push(corner, FrameItem::Shape(shape, Span::detached()));
    }

    /// Add a green marker line at a position for debugging: a line one point
    /// thick across the frame.
    pub fn mark_line(&mut self, y: Abs)
        ensures
            final(self)@ == (FrameView {
                items: old(self)@.items.push(
                    (
                        Point { x: Abs(0), y },
                        FrameItem::Shape(
                            Geometry::Line(Point { x: old(self)@.size.x, y: Abs(0) }).spec_stroked(
                                FixedStroke::spec_from_pair(debug_green(), Abs(UNITS_PER_PT)),
                            ),
                            Span::spec_detached(),
                        ),
                    ),
                ),
                ..old(self)@
            }),
    {
        let green = FixedStroke::from_pair(Paint::Solid(Color::green()), Abs::pt(1));
        let line = Geometry::Line(Point::with_x(self.size.x)).stroked(green);
        self.push(Point::with_y(y), FrameItem::Shape(line, Span::detached()));
    }
}

} // verus!
