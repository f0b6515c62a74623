//! The geometry of pages and the assembly of laid-out pages.
//!
//! A page run has one size and one set of margins. Its content is laid out
//! into the area within the margins; the marginals (header, footer,
//! background and foreground) are laid out by the engine into the areas that
//! this module computes, and the pieces are put together into pages.

use vstd::prelude::*;

use crate::content::Tag;
use crate::frame::{origin, spec_push_frame, spec_translatable, Frame, FrameItem, FrameKind, FrameView};
use crate::geom::{in_range, spec_scale, Abs, Axes, Length, Point, Rel, Sides, Size, Smart};
use crate::margin::Margin;
use crate::visualize::Paint;

verus! {

/// The width of an A4 page, in raw length units: the shorter side that
/// default margins are taken from when the page has no bounded side.
pub const A4_WIDTH: i64 = 595_275;

/// On which side of a page its binding is.
#[derive(Clone, Copy, PartialEq, Eq, Structural, Hash, Debug)]
pub enum Binding {
    /// Bound on the left, as in left-to-right text.
    Left,
    /// Bound on the right, as in right-to-left text.
    Right,
}

/// The geometry of the pages of a run: their size, where an unbounded side
/// (`None`) fits the content; the resolved margins; and the area within the
/// margins that the content is laid out into.
#[derive(Clone, Copy, PartialEq, Eq, Debug)]
pub struct PageGeometry {
    /// The size of the pages; `None` along an axis without bound.
    pub size: Axes<Option<Abs>>,
    /// The resolved margins.
    pub margin: Sides<Abs>,
    /// The area within the margins; `None` along an axis without bound.
    pub area: Axes<Option<Abs>>,
}

/// The size of a page after flipping, which swaps its width and height.
pub open spec fn spec_page_size(width: Option<Abs>, height: Option<Abs>, flipped: bool) -> Axes<
    Option<Abs>,
> {
    if flipped {
        Axes { x: height, y: width }
    } else {
        Axes { x: width, y: height }
    }
}

/// The shorter bounded side of a page, or the width of A4 where no side is
/// bounded.
pub open spec fn spec_shorter_side(width: Option<Abs>, height: Option<Abs>) -> int {
    match (width, height) {
        (Some(w), Some(h)) => if w.0 <= h.0 {
            w.0 as int
        } else {
            h.0 as int
        },
        (Some(w), None) => w.0 as int,
        (None, Some(h)) => h.0 as int,
        (None, None) => A4_WIDTH as int,
    }
}

/// The default margin: 2.5/21 of the shorter side, rounded down.
pub open spec fn spec_default_margin(width: Option<Abs>, height: Option<Abs>) -> int {
    spec_shorter_side(width, height) * 25 / 210
}

/// A margin resolved against the page's extent along its axis: an unset or
/// automatic margin takes the default; a set one is resolved at the font
/// size and relative to the extent (its relative part counting for nothing
/// along an unbounded axis).
pub open spec fn spec_side_margin(
    side: Option<Smart<Rel<Length>>>,
    default: int,
    font_size: Abs,
    extent: Option<Abs>,
) -> int {
    match side {
        Some(Smart::Custom(v)) => match extent {
            Some(e) => v.spec_resolve(font_size).spec_relative_to(e),
            None => v.abs.spec_at(font_size),
        },
        _ => default,
    }
}

/// Whether resolving a margin stays in the range of lengths.
pub open spec fn spec_side_fits(side: Option<Smart<Rel<Length>>>, font_size: Abs, extent: Option<Abs>) -> bool {
    side matches Some(Smart::Custom(v)) ==> {
        &&& v.abs.spec_at_fits(font_size)
        &&& extent matches Some(e) ==> {
            &&& in_range(spec_scale(v.rel.0 as int, e.0 as int))
            &&& in_range(v.spec_resolve(font_size).spec_relative_to(e))
        }
    }
}

/// The extent left along an axis by two margins, if the axis is bounded.
pub open spec fn spec_area_extent(extent: Option<Abs>, a: int, b: int) -> Option<int> {
    match extent {
        Some(e) => Some(e.0 - (a + b)),
        None => None,
    }
}

/// Whether the page geometry stays in the range of lengths.
pub open spec fn spec_geometry_fits(
    width: Option<Abs>,
    height: Option<Abs>,
    flipped: bool,
    margin: Margin,
    font_size: Abs,
) -> bool {
    let size = spec_page_size(width, height, flipped);
    let d = spec_default_margin(width, height);
    let l = spec_side_margin(margin.sides.left, d, font_size, size.x);
    let t = spec_side_margin(margin.sides.top, d, font_size, size.y);
    let r = spec_side_margin(margin.sides.right, d, font_size, size.x);
    let b = spec_side_margin(margin.sides.bottom, d, font_size, size.y);
    &&& width matches Some(w) ==> w.0 >= 0
    &&& height matches Some(h) ==> h.0 >= 0
    &&& spec_side_fits(margin.sides.left, font_size, size.x)
    &&& spec_side_fits(margin.sides.top, font_size, size.y)
    &&& spec_side_fits(margin.sides.right, font_size, size.x)
    &&& spec_side_fits(margin.sides.bottom, font_size, size.y)
    &&& in_range(l + r)
    &&& in_range(t + b)
    &&& size.x matches Some(e) ==> in_range(e.0 - (l + r))
    &&& size.y matches Some(e) ==> in_range(e.0 - (t + b))
}

/// Resolves one margin against the page's extent along its axis.
fn side_margin(side: Option<Smart<Rel<Length>>>, default: Abs, font_size: Abs, extent: Option<Abs>) -> (r:
    Abs)
    requires
        spec_side_fits(side, font_size, extent),
    ensures
        r.0 == spec_side_margin(side, default.0 as int, font_size, extent),
{
    match side {
        Some(Smart::Custom(v)) => match extent {
            Some(e) => v.resolve(font_size).relative_to(e),
            None => v.abs.at(font_size),
        },
        _ => default,
    }
}

/// Determines the geometry of a page run: its size, with width and height
/// swapped if the page is flipped; its margins, each unset or automatic one
/// being 2.5/21 of the shorter bounded side (of an A4 page's width if no
/// side is bounded) and the others resolved at the font size relative to
/// the page's extent along their axis; and the area within the margins.
pub fn page_geometry(
    width: Option<Abs>,
    height: Option<Abs>,
    flipped: bool,
    margin: &Margin,
    font_size: Abs,
) -> (r: PageGeometry)
    requires
        spec_geometry_fits(width, height, flipped, *margin, font_size),
    ensures
        ({
            let size = spec_page_size(width, height, flipped);
            let d = spec_default_margin(width, height);
            let l = spec_side_margin(margin.sides.left, d, font_size, size.x);
            let t = spec_side_margin(margin.sides.top, d, font_size, size.y);
            let rt = spec_side_margin(margin.sides.right, d, font_size, size.x);
            let b = spec_side_margin(margin.sides.bottom, d, font_size, size.y);
            &&& r.size == size
            &&& r.margin.left.0 == l
            &&& r.margin.top.0 == t
            &&& r.margin.right.0 == rt
            &&& r.margin.bottom.0 == b
            &&& match r.area.x {
                Some(a) => spec_area_extent(size.x, l, rt) == Some(a.0 as int),
                None => size.x is None,
            }
            &&& match r.area.y {
                Some(a) => spec_area_extent(size.y, t, b) == Some(a.0 as int),
                None => size.y is None,
            }
        }),
{
    let size = if flipped {
        Axes::new(height, width)
    } else {
        Axes::new(width, height)
    };
    let shorter: i64 = match (width, height) {
        (Some(w), Some(h)) => if w.0 <= h.0 {
            w.0
        } else {
            h.0
        },
        (Some(w), None) => w.0,
        (None, Some(h)) => h.0,
        (None, None) => A4_WIDTH,
    };
    assert(0 <= shorter);
    let default = Abs((shorter as i128 * 25 / 210) as i64);
    let left = side_margin(margin.sides.left, default, font_size, size.x);
    let top = side_margin(margin.sides.top, default, font_size, size.y);
    let right = side_margin(margin.sides.right, default, font_size, size.x);
    let bottom = side_margin(margin.sides.bottom, default, font_size, size.y);
    let horizontal = left.plus(right);
    let vertical = top.plus(bottom);
    let area_x = match size.x {
        Some(e) => Some(e.minus(horizontal)),
        None => None,
    };
    let area_y = match size.y {
        Some(e) => Some(e.minus(vertical)),
        None => None,
    };
    PageGeometry {
        size,
        margin: Sides { left, top, right, bottom },
        area: Axes::new(area_x, area_y),
    }
}

/// The areas that the marginals of a page with content of size `inner` are
/// laid out in: the header above the content, up to the header's ascent
/// into the top margin; the footer below, up to the footer's descent into
/// the bottom margin; and the whole page for the background and
/// foreground.
pub fn marginal_areas(inner: Size, margin: &Sides<Abs>, header_ascent: Abs, footer_descent: Abs) -> (r: (
    Size,
    Size,
    Size,
))
    requires
        in_range(margin.top.0 - header_ascent.0),
        in_range(margin.bottom.0 - footer_descent.0),
        in_range(margin.left.0 + margin.right.0),
        in_range(margin.top.0 + margin.bottom.0),
        in_range(inner.x.0 + margin.left.0 + margin.right.0),
        in_range(inner.y.0 + margin.top.0 + margin.bottom.0),
    ensures
        r.0 == (Axes { x: inner.x, y: Abs((margin.top.0 - header_ascent.0) as i64) }),
        r.1 == (Axes { x: inner.x, y: Abs((margin.bottom.0 - footer_descent.0) as i64) }),
        r.2 == (Axes {
            x: Abs((inner.x.0 + margin.left.0 + margin.right.0) as i64),
            y: Abs((inner.y.0 + margin.top.0 + margin.bottom.0) as i64),
        }),
{
    let header = Axes::new(inner.x, margin.top.minus(header_ascent));
    let footer = Axes::new(inner.x, margin.bottom.minus(footer_descent));
    let full = Axes::new(
        inner.x.plus(margin.left.plus(margin.right)),
        inner.y.plus(margin.top.plus(margin.bottom)),
    );
    (header, footer, full)
}

/// A page laid out in a page run, with what its finalization needs.
pub struct LayoutedPage {
    /// The page's content.
    pub inner: Frame,
    /// The page's margins.
    pub margin: Sides<Abs>,
    /// On which side the page is bound.
    pub binding: Binding,
    /// Whether the left and right margins swap on even pages.
    pub two_sided: bool,
    /// The page's header.
    pub header: Option<Frame>,
    /// The page's footer.
    pub footer: Option<Frame>,
    /// The page's background.
    pub background: Option<Frame>,
    /// The page's foreground.
    pub foreground: Option<Frame>,
    /// The page's fill.
    pub fill: Smart<Option<Paint>>,
}

/// The marginals of one page, laid out by the engine: header, footer,
/// background and foreground.
pub type Marginals = (Option<Frame>, Option<Frame>, Option<Frame>, Option<Frame>);

/// Puts the pages of a run together: each frame of the laid-out content
/// becomes a page with the run's margins, binding, sidedness and fill, and
/// with the marginals laid out for it.
pub fn finish_page_run(
    fragment: Vec<Frame>,
    g: &PageGeometry,
    binding: Binding,
    two_sided: bool,
    fill: Smart<Option<Paint>>,
    marginals: Vec<Marginals>,
) -> (r: Vec<LayoutedPage>)
    requires
        marginals@.len() == fragment@.len(),
    ensures
        r@.len() == fragment@.len(),
        forall|i: int|
            0 <= i < r@.len() ==> {
                &&& (#[trigger] r@[i]).inner == fragment@[i]
                &&& r@[i].margin == g.margin
                &&& r@[i].binding == binding
                &&& r@[i].two_sided == two_sided
                &&& r@[i].fill == fill
                &&& r@[i].header == marginals@[i].0
                &&& r@[i].footer == marginals@[i].1
                &&& r@[i].background == marginals@[i].2
                &&& r@[i].foreground == marginals@[i].3
            },
{
    let ghost frames = fragment@;
    let ghost ms = marginals@;
    let n: usize = fragment.len();
    let mut frames_left = fragment;
    let mut marginals_left = marginals;
    let mut rev: Vec<LayoutedPage> = Vec::new();
    while frames_left.len() > 0
        invariant
            frames_left@.len() == marginals_left@.len(),
            frames_left@.len() + rev@.len() == n,
            n == frames.len(),
            ms.len() == n,
            frames_left@ == frames.take(frames_left@.len() as int),
            marginals_left@ == ms.take(marginals_left@.len() as int),
            forall|j: int|
                0 <= j < rev@.len() ==> {
                    let k = n - 1 - j;
                    &&& (#[trigger] rev@[j]).inner == frames[k]
                    &&& rev@[j].margin == g.margin
                    &&& rev@[j].binding == binding
                    &&& rev@[j].two_sided == two_sided
                    &&& rev@[j].fill == fill
                    &&& rev@[j].header == ms[k].0
                    &&& rev@[j].footer == ms[k].1
                    &&& rev@[j].background == ms[k].2
                    &&& rev@[j].foreground == ms[k].3
                },
        decreases frames_left@.len(),
    {
        let inner = frames_left.pop().unwrap();
        let (header, footer, background, foreground) = marginals_left.pop().unwrap();
        proof {
            assert(frames_left@ =~= frames.take(frames_left@.len() as int));
            assert(marginals_left@ =~= ms.take(marginals_left@.len() as int));
        }
        rev.push(
            LayoutedPage {
                inner,
                margin: g.margin,
                binding,
                two_sided,
                header,
                footer,
                background,
                foreground,
                fill,
            },
        );
    }
    let mut out: Vec<LayoutedPage> = Vec::new();
    while rev.len() > 0
        invariant
            rev@.len() + out@.len() == n,
            n == frames.len(),
            ms.len() == n,
            forall|j: int|
                0 <= j < rev@.len() ==> {
                    let k = n - 1 - j;
                    &&& (#[trigger] rev@[j]).inner == frames[k]
                    &&& rev@[j].margin == g.margin
                    &&& rev@[j].binding == binding
                    &&& rev@[j].two_sided == two_sided
                    &&& rev@[j].fill == fill
                    &&& rev@[j].header == ms[k].0
                    &&& rev@[j].footer == ms[k].1
                    &&& rev@[j].background == ms[k].2
                    &&& rev@[j].foreground == ms[k].3
                },
            forall|i: int|
                0 <= i < out@.len() ==> {
                    &&& (#[trigger] out@[i]).inner == frames[i]
                    &&& out@[i].margin == g.margin
                    &&& out@[i].binding == binding
                    &&& out@[i].two_sided == two_sided
                    &&& out@[i].fill == fill
                    &&& out@[i].header == ms[i].0
                    &&& out@[i].footer == ms[i].1
                    &&& out@[i].background == ms[i].2
                    &&& out@[i].foreground == ms[i].3
                },
        decreases rev@.len(),
    {
        let page = rev.pop().unwrap();
        out.push(page);
    }
    out
}

impl Binding {
    /// Whether the left and right margins swap on the page with the given
    /// physical number, counted from one: a page bound on the left swaps on
    /// even pages, one bound on the right on odd pages.
    pub open spec fn spec_swap(self, number: int) -> bool {
        match self {
            Binding::Left => number % 2 == 0,
            Binding::Right => number % 2 == 1,
        }
    }

    /// Whether the left and right margins swap on the page with the given
    /// physical number, counted from one.
    pub fn swap(self, number: usize) -> (r: bool)
        requires
            number >= 1,
        ensures
            r == self.spec_swap(number as int),
    {
        match self {
            Binding::Left => number % 2 == 0,
            Binding::Right => number % 2 == 1,
        }
    }
}

/// A finished page.
pub struct Page {
    /// The page's frame, margins and marginals included.
    pub frame: Frame,
    /// How the page is filled.
    pub fill: Smart<Option<Paint>>,
    /// The page's logical number.
    pub number: usize,
}

/// The margins of a page with the given physical number: on two-sided
/// pages the left and right margins swap where the binding says so.
pub open spec fn spec_page_margin(page: LayoutedPage, physical: int) -> Sides<Abs> {
    if page.two_sided && page.binding.spec_swap(physical) {
        Sides { left: page.margin.right, right: page.margin.left, ..page.margin }
    } else {
        page.margin
    }
}

/// The size of a finished page: its content's size with the margins.
pub open spec fn spec_finished_size(page: LayoutedPage, physical: int) -> Size {
    let m = spec_page_margin(page, physical);
    Axes {
        x: Abs((page.inner@.size.x.0 + m.left.0 + m.right.0) as i64),
        y: Abs((page.inner@.size.y.0 + m.top.0 + m.bottom.0) as i64),
    }
}

/// The frame with a frame pushed at a position, if there is one.
pub open spec fn spec_push_marginal(f: FrameView, pos: Point, marginal: Option<Frame>) -> FrameView {
    match marginal {
        Some(m) => spec_push_frame(f, pos, m),
        None => f,
    }
}

/// Where a page's footer goes: at the left margin, its bottom at the
/// page's bottom.
pub open spec fn spec_footer_pos(page: LayoutedPage, physical: int) -> Point {
    let m = spec_page_margin(page, physical);
    let h = match page.footer {
        Some(f) => f@.size.y.0 as int,
        None => 0,
    };
    Point { x: m.left, y: Abs((spec_finished_size(page, physical).y.0 - h) as i64) }
}

/// The frame of a finished page: a hard frame of the page's size holding,
/// from the back to the front, the pending tags, the background, the
/// header at the left margin, the content within the margins, the footer
/// at the bottom and the foreground.
pub open spec fn spec_finalized_frame(tags: Seq<Tag>, page: LayoutedPage, physical: int) -> FrameView {
    let m = spec_page_margin(page, physical);
    let f0 = FrameView {
        size: spec_finished_size(page, physical),
        baseline: None,
        items: tags.map_values(|t: Tag| (origin(), FrameItem::Tag(t))),
        kind: FrameKind::Hard,
    };
    let f1 = spec_push_marginal(f0, origin(), page.background);
    let f2 = spec_push_marginal(f1, Point { x: m.left, y: Abs(0) }, page.header);
    let f3 = spec_push_frame(f2, Point { x: m.left, y: m.top }, page.inner);
    let f4 = spec_push_marginal(f3, spec_footer_pos(page, physical), page.footer);
    spec_push_marginal(f4, origin(), page.foreground)
}

/// Whether a marginal's items can be moved to a position.
pub open spec fn spec_marginal_fits(marginal: Option<Frame>, pos: Point) -> bool {
    match marginal {
        Some(m) => spec_translatable(m@.items, pos),
        None => true,
    }
}

/// Whether a page can be finished: its size with the margins, the footer's
/// position and the positions of the pieces' items are lengths.
pub open spec fn spec_finalize_fits(page: LayoutedPage, physical: int) -> bool {
    let m = spec_page_margin(page, physical);
    &&& in_range(page.inner@.size.x.0 + m.left.0)
    &&& in_range(page.inner@.size.x.0 + m.left.0 + m.right.0)
    &&& in_range(page.inner@.size.y.0 + m.top.0)
    &&& in_range(page.inner@.size.y.0 + m.top.0 + m.bottom.0)
    &&& match page.footer {
        Some(f) => in_range(spec_finished_size(page, physical).y.0 - f@.size.y.0),
        None => true,
    }
    &&& spec_marginal_fits(page.background, origin())
    &&& spec_marginal_fits(page.header, Point { x: m.left, y: Abs(0) })
    &&& spec_translatable(page.inner@.items, Point { x: m.left, y: m.top })
    &&& spec_marginal_fits(page.footer, spec_footer_pos(page, physical))
    &&& spec_marginal_fits(page.foreground, origin())
}

/// Finishes a laid-out page with the given physical number (counted from
/// one) and logical number: the margins swap on two-sided pages where the
/// binding says so, the pending tags go first and are taken, and the
/// marginals and the content are put together into the page's frame. The
/// caller applies the page's counter updates.
pub fn finalize_page(tags: &mut Vec<Tag>, page: LayoutedPage, physical: usize, number: usize) -> (r: Page)
    requires
        physical >= 1,
        spec_finalize_fits(page, physical as int),
    ensures
        final(tags)@.len() == 0,
        r.frame@ == spec_finalized_frame(old(tags)@, page, physical as int),
        r.fill == page.fill,
        r.number == number,
{
    let ghost orig = page;
    let LayoutedPage { inner, margin, binding, two_sided, header, footer, background, foreground, fill } =
        page;
    let mut margin = margin;
    if two_sided && binding.swap(physical) {
        let left = margin.left;
        margin.left = margin.right;
        margin.right = left;
    }
    proof {
        assert(margin == spec_page_margin(orig, physical as int));
    }
    let isize = inner.size();
    let size = Axes {
        x: isize.x.plus(margin.left).plus(margin.right),
        y: isize.y.plus(margin.top).plus(margin.bottom),
    };
    let mut frame = Frame::hard(size);
    let ghost pending = tags@;
    let mut i: usize = 0;
    proof {
        assert(pending.take(0).map_values(|t: Tag| (origin(), FrameItem::Tag(t))) =~= Seq::<
            (Point, FrameItem),
        >::empty());
    }
    while i < tags.len()
        invariant
            i <= tags@.len(),
            tags@ == pending,
            frame@ == (FrameView {
                size,
                baseline: None,
                items: pending.take(i as int).map_values(|t: Tag| (origin(), FrameItem::Tag(t))),
                kind: FrameKind::Hard,
            }),
        decreases tags@.len() - i,
    {
        frame.push(Point::zero(), FrameItem::Tag(tags[i]));
        proof {
            assert(pending.take(i + 1).map_values(|t: Tag| (origin(), FrameItem::Tag(t))) =~= pending.take(
                i as int,
            ).map_values(|t: Tag| (origin(), FrameItem::Tag(t))).push((origin(), FrameItem::Tag(pending[i as int]))));
        }
        i += 1;
    }
    proof {
        assert(pending.take(pending.len() as int) =~= pending);
    }
    tags.clear();
    match background {
        Some(b) => frame.push_frame(Point::zero(), b),
        None => {},
    }
    match header {
        Some(h) => frame.push_frame(Point::with_x(margin.left), h),
        None => {},
    }
    frame.push_frame(Point::new(margin.left, margin.top), inner);
    match footer {
        Some(f) => {
            let y = frame.height().minus(f.height());
            frame.push_frame(Point::new(margin.left, y), f);
        },
        None => {},
    }
    match foreground {
        Some(fg) => frame.push_frame(Point::zero(), fg),
        None => {},
    }
    Page { frame, fill, number }
}

} // verus!
