//! Grid elements and the resolution of where every cell and line of a grid
//! goes.

pub mod auto_row;
pub mod layout;
pub mod lines;
pub mod render;
pub mod repeated;
pub mod rowspans;
pub mod strokes;
pub mod tracks;

use vstd::prelude::*;

use crate::align::Alignment;
use crate::content::{Content, Span};
use crate::geom::{Dir, Length, NonZeroUsize, Rel, Sides, Smart};
use crate::grid::layout::{Cell, GridItem as ResolvableGridItem, ResolvableCell};
use crate::grid::lines::LinePosition;
use crate::visualize::{fold_option, spec_fold_option, Paint, Stroke};

verus! {

/// A vertical alignment that places something outside of a track: above or
/// below it.
#[derive(Clone, Copy, PartialEq, Eq, Structural, Hash, Debug)]
pub enum OuterVAlignment {
    /// Above.
    Top,
    /// Below.
    Bottom,
}

/// A horizontal alignment that places something outside of a track: before or
/// after it.
#[derive(Clone, Copy, PartialEq, Eq, Structural, Hash, Debug)]
pub enum OuterHAlignment {
    /// Before, in the text direction.
    Start,
    /// To the left.
    Left,
    /// To the right.
    Right,
    /// After, in the text direction.
    End,
}

/// Any child of a grid element.
#[derive(Clone, PartialEq, Eq, Debug)]
pub enum GridChild {
    /// A header.
    Header(GridHeader),
    /// A footer.
    Footer(GridFooter),
    /// A cell or line.
    Item(GridItem),
}

/// A grid item, the basic unit of grid specification.
#[derive(Clone, Copy, PartialEq, Eq, Debug)]
pub enum GridItem {
    /// A horizontal line.
    HLine(GridHLine),
    /// A vertical line.
    VLine(GridVLine),
    /// A cell.
    Cell(GridCell),
}

/// A repeatable grid header.
#[derive(Clone, PartialEq, Eq, Debug)]
pub struct GridHeader {
    /// Whether this header should be repeated across pages.
    pub repeat: bool,
    /// The cells and lines within the header.
    pub children: Vec<GridItem>,
}

/// A repeatable grid footer.
#[derive(Clone, PartialEq, Eq, Debug)]
pub struct GridFooter {
    /// Whether this footer should be repeated across pages.
    pub repeat: bool,
    /// The cells and lines within the footer.
    pub children: Vec<GridItem>,
}

/// A horizontal line in the grid.
#[derive(Clone, Copy, PartialEq, Eq, Debug)]
pub struct GridHLine {
    /// The row above which the line is placed, or `auto` for the row after
    /// the last automatically positioned cell.
    pub y: Smart<usize>,
    /// The column at which the line starts.
    pub start: usize,
    /// The column before which the line ends, or `None` for the end.
    pub end: Option<usize>,
    /// The line's stroke.
    pub stroke: Option<Stroke>,
    /// Whether the line is placed above or below its row.
    pub position: OuterVAlignment,
    /// The element's span.
    pub span: Span,
}

/// A vertical line in the grid.
#[derive(Clone, Copy, PartialEq, Eq, Debug)]
pub struct GridVLine {
    /// The column before which the line is placed, or `auto` for the column
    /// after the last automatically positioned cell.
    pub x: Smart<usize>,
    /// The row at which the line starts.
    pub start: usize,
    /// The row before which the line ends, or `None` for the end.
    pub end: Option<usize>,
    /// The line's stroke.
    pub stroke: Option<Stroke>,
    /// Whether the line is placed before or after its column.
    pub position: OuterHAlignment,
    /// The element's span.
    pub span: Span,
}

/// A cell in the grid, with the overrides it was given.
#[derive(Clone, Copy, PartialEq, Eq, Debug)]
pub struct GridCell {
    /// The cell's body.
    pub body: Content,
    /// The cell's column.
    pub x: Smart<usize>,
    /// The cell's row.
    pub y: Smart<usize>,
    /// The number of columns spanned by this cell.
    pub colspan: NonZeroUsize,
    /// The number of rows spanned by this cell.
    pub rowspan: NonZeroUsize,
    /// The cell's fill override.
    pub fill: Smart<Option<Paint>>,
    /// The cell's alignment override.
    pub align: Smart<Alignment>,
    /// The cell's inset override.
    pub inset: Smart<Sides<Option<Rel<Length>>>>,
    /// The cell's stroke override.
    pub stroke: Sides<Option<Option<Stroke>>>,
    /// Whether rows spanned by this cell can be placed in different pages.
    pub breakable: Smart<bool>,
    /// The element's span.
    pub span: Span,
}

/// An unset side of an inner value takes the outer one; two set sides are
/// folded with `fold`.
pub open spec fn spec_fold_or<T>(inner: Option<T>, outer: Option<T>, fold: spec_fn(T, T) -> T) -> Option<
    T,
> {
    match (inner, outer) {
        (Some(i), Some(o)) => Some(fold(i, o)),
        (None, o) => o,
        (Some(i), None) => Some(i),
    }
}

/// A cell's stroke side folded with the grid's: an unset side takes the
/// grid's, two set sides are folded (where an explicit absence of stroke wins
/// over a stroke).
pub open spec fn spec_fold_stroke_side(
    inner: Option<Option<Stroke>>,
    outer: Option<Option<Stroke>>,
) -> Option<Option<Stroke>> {
    spec_fold_or(inner, outer, |i: Option<Stroke>, o: Option<Stroke>| spec_fold_option(i, o))
}

/// A cell's stroke side folded with the grid's.
fn fold_stroke_side(inner: Option<Option<Stroke>>, outer: Option<Option<Stroke>>) -> (r: Option<
    Option<Stroke>,
>)
    ensures
        r == spec_fold_stroke_side(inner, outer),
{
    match (inner, outer) {
        (Some(i), Some(o)) => Some(fold_option(i, o)),
        (None, o) => o,
        (Some(i), None) => Some(i),
    }
}

/// An inset side folded with an outer one: a set inner side wins.
pub open spec fn spec_fold_inset_side(inner: Option<Rel<Length>>, outer: Option<Rel<Length>>) -> Option<Rel<Length>> {
    spec_fold_or(inner, outer, |i: Rel<Length>, o: Rel<Length>| i)
}

/// Flattens a side that may be unset into one that may have no stroke.
pub open spec fn spec_flatten(side: Option<Option<Stroke>>) -> Option<Stroke> {
    match side {
        Some(s) => s,
        None => None,
    }
}

/// Whether a side is explicitly set to a stroke.
pub open spec fn spec_overridden(side: Option<Option<Stroke>>) -> bool {
    side matches Some(Some(_))
}

impl GridCell {
    /// A cell with the given body and no overrides.
    pub fn new(body: Content) -> (r: Self)
        ensures
            r.body == body,
            r.x == Smart::<usize>::Auto,
            r.y == Smart::<usize>::Auto,
            r.colspan.spec_get() == 1,
            r.rowspan.spec_get() == 1,
            r.fill == Smart::<Option<Paint>>::Auto,
            r.align == Smart::<Alignment>::Auto,
            r.inset == Smart::<Sides<Option<Rel<Length>>>>::Auto,
            r.stroke == (Sides::<Option<Option<Stroke>>> {
                left: None,
                top: None,
                right: None,
                bottom: None,
            }),
            r.breakable == Smart::<bool>::Auto,
            r.span == Span(0),
    {
        GridCell {
            body,
            x: Smart::Auto,
            y: Smart::Auto,
            colspan: NonZeroUsize::one(),
            rowspan: NonZeroUsize::one(),
            fill: Smart::Auto,
            align: Smart::Auto,
            inset: Smart::Auto,
            stroke: Sides { left: None, top: None, right: None, bottom: None },
            breakable: Smart::Auto,
            span: Span(0),
        }
    }

    /// The cell spanning the given number of columns.
    pub fn with_colspan(self, colspan: NonZeroUsize) -> (r: Self)
        ensures
            r == (GridCell { colspan, ..self }),
    {
        GridCell { colspan, ..self }
    }

    /// The cell spanning the given number of rows.
    pub fn with_rowspan(self, rowspan: NonZeroUsize) -> (r: Self)
        ensures
            r == (GridCell { rowspan, ..self }),
    {
        GridCell { rowspan, ..self }
    }

    /// The cell placed at the given column.
    pub fn with_x(self, x: Smart<usize>) -> (r: Self)
        ensures
            r == (GridCell { x, ..self }),
    {
        GridCell { x, ..self }
    }

    /// The cell placed at the given row.
    pub fn with_y(self, y: Smart<usize>) -> (r: Self)
        ensures
            r == (GridCell { y, ..self }),
    {
        GridCell { y, ..self }
    }

    /// The cell with the given stroke override.
    pub fn with_stroke(self, stroke: Sides<Option<Option<Stroke>>>) -> (r: Self)
        ensures
            r == (GridCell { stroke, ..self }),
    {
        GridCell { stroke, ..self }
    }

    /// The cell with the given fill override.
    pub fn with_fill(self, fill: Smart<Option<Paint>>) -> (r: Self)
        ensures
            r == (GridCell { fill, ..self }),
    {
        GridCell { fill, ..self }
    }

    /// The cell with the given breakability override.
    pub fn with_breakable(self, breakable: Smart<bool>) -> (r: Self)
        ensures
            r == (GridCell { breakable, ..self }),
    {
        GridCell { breakable, ..self }
    }

    /// The cell with the given span.
    pub fn with_span(self, span: Span) -> (r: Self)
        ensures
            r == (GridCell { span, ..self }),
    {
        GridCell { span, ..self }
    }
}

impl ResolvableCell for GridCell {
    open spec fn spec_x(&self) -> Smart<usize> {
        self.x
    }

    open spec fn spec_y(&self) -> Smart<usize> {
        self.y
    }

    open spec fn spec_colspan(&self) -> usize {
        self.colspan.spec_get()
    }

    open spec fn spec_rowspan(&self) -> usize {
        self.rowspan.spec_get()
    }

    open spec fn spec_span(&self) -> Span {
        self.span
    }

    /// The cell resolves its overrides against the grid-wide values: its own
    /// fill, breakability and inset win, its alignment is folded with the
    /// grid's, and its stroke sides are folded with the grid's; the resolved
    /// values are written back into the cell, which becomes the body.
    open spec fn spec_resolve_cell(
        self,
        x: usize,
        y: usize,
        fill: Option<Paint>,
        align: Smart<Alignment>,
        inset: Sides<Option<Rel<Length>>>,
        stroke: Sides<Option<Option<Stroke>>>,
        breakable: bool,
    ) -> Cell<Self> {
        let breakable = match self.breakable {
            Smart::Custom(b) => b,
            Smart::Auto => breakable,
        };
        let fill = match self.fill {
            Smart::Custom(f) => f,
            Smart::Auto => fill,
        };
        let folded = Sides {
            left: spec_fold_stroke_side(self.stroke.left, stroke.left),
            top: spec_fold_stroke_side(self.stroke.top, stroke.top),
            right: spec_fold_stroke_side(self.stroke.right, stroke.right),
            bottom: spec_fold_stroke_side(self.stroke.bottom, stroke.bottom),
        };
        let final_stroke = Sides {
            left: spec_flatten(folded.left),
            top: spec_flatten(folded.top),
            right: spec_flatten(folded.right),
            bottom: spec_flatten(folded.bottom),
        };
        let overridden = Sides {
            left: spec_overridden(self.stroke.left),
            top: spec_overridden(self.stroke.top),
            right: spec_overridden(self.stroke.right),
            bottom: spec_overridden(self.stroke.bottom),
        };
        let new_align = match align {
            Smart::Custom(a) => Smart::Custom(
                match self.align {
                    Smart::Custom(inner) => inner.spec_fold(a),
                    Smart::Auto => a,
                },
            ),
            Smart::Auto => self.align,
        };
        let new_inset = match self.inset {
            Smart::Custom(inner) => Sides {
                left: spec_fold_inset_side(inner.left, inset.left),
                top: spec_fold_inset_side(inner.top, inset.top),
                right: spec_fold_inset_side(inner.right, inset.right),
                bottom: spec_fold_inset_side(inner.bottom, inset.bottom),
            },
            Smart::Auto => inset,
        };
        let body = GridCell {
            x: Smart::Custom(x),
            y: Smart::Custom(y),
            fill: Smart::Custom(fill),
            align: new_align,
            inset: Smart::Custom(new_inset),
            stroke: Sides {
                left: Some(final_stroke.left),
                top: Some(final_stroke.top),
                right: Some(final_stroke.right),
                bottom: Some(final_stroke.bottom),
            },
            breakable: Smart::Custom(breakable),
            ..self
        };
        Cell {
            body,
            fill,
            colspan: self.colspan.spec_get(),
            rowspan: self.rowspan.spec_get(),
            stroke: final_stroke,
            stroke_overridden: overridden,
            breakable,
        }
    }

    open spec fn spec_empty() -> Self {
        GridCell {
            body: Content(0),
            x: Smart::Auto,
            y: Smart::Auto,
            colspan: NonZeroUsize::spec_one(),
            rowspan: NonZeroUsize::spec_one(),
            fill: Smart::Auto,
            align: Smart::Auto,
            inset: Smart::Auto,
            stroke: Sides { left: None, top: None, right: None, bottom: None },
            breakable: Smart::Auto,
            span: Span(0),
        }
    }

    fn resolve_cell(
        self,
        x: usize,
        y: usize,
        fill: &Option<Paint>,
        align: Smart<Alignment>,
        inset: Sides<Option<Rel<Length>>>,
        stroke: Sides<Option<Option<Stroke>>>,
        breakable: bool,
    ) -> (r: Cell<Self>) {
        let breakable = match self.breakable {
            Smart::Custom(b) => b,
            Smart::Auto => breakable,
        };
        let fill = match self.fill {
            Smart::Custom(f) => f,
            Smart::Auto => *fill,
        };
        let cs = self.stroke;
        let left = fold_stroke_side(cs.left, stroke.left);
        let top = fold_stroke_side(cs.top, stroke.top);
        let right = fold_stroke_side(cs.right, stroke.right);
        let bottom = fold_stroke_side(cs.bottom, stroke.bottom);
        let final_stroke = Sides {
            left: match left {
                Some(s) => s,
                None => None,
            },
            top: match top {
                Some(s) => s,
                None => None,
            },
            right: match right {
                Some(s) => s,
                None => None,
            },
            bottom: match bottom {
                Some(s) => s,
                None => None,
            },
        };
        let overridden = Sides {
            left: matches!(cs.left, Some(Some(_))),
            top: matches!(cs.top, Some(Some(_))),
            right: matches!(cs.right, Some(Some(_))),
            bottom: matches!(cs.bottom, Some(Some(_))),
        };
        let new_align = match align {
            Smart::Custom(a) => Smart::Custom(
                match self.align {
                    Smart::Custom(inner) => inner.fold(a),
                    Smart::Auto => a,
                },
            ),
            Smart::Auto => self.align,
        };
        let new_inset = match self.inset {
            Smart::Custom(inner) => Sides {
                left: match inner.left {
                    Some(i) => Some(i),
                    None => inset.left,
                },
                top: match inner.top {
                    Some(i) => Some(i),
                    None => inset.top,
                },
                right: match inner.right {
                    Some(i) => Some(i),
                    None => inset.right,
                },
                bottom: match inner.bottom {
                    Some(i) => Some(i),
                    None => inset.bottom,
                },
            },
            Smart::Auto => inset,
        };
        let colspan = self.colspan.get();
        let rowspan = self.rowspan.get();
        let body = GridCell {
            x: Smart::Custom(x),
            y: Smart::Custom(y),
            fill: Smart::Custom(fill),
            align: new_align,
            inset: Smart::Custom(new_inset),
            stroke: Sides {
                left: Some(final_stroke.left),
                top: Some(final_stroke.top),
                right: Some(final_stroke.right),
                bottom: Some(final_stroke.bottom),
            },
            breakable: Smart::Custom(breakable),
            ..self
        };
        Cell {
            body,
            fill,
            colspan,
            rowspan,
            stroke: final_stroke,
            stroke_overridden: overridden,
            breakable,
        }
    }

    fn x(&self) -> (r: Smart<usize>) {
        self.x
    }

    fn y(&self) -> (r: Smart<usize>) {
        self.y
    }

    fn colspan(&self) -> (r: usize) {
        self.colspan.get()
    }

    fn rowspan(&self) -> (r: usize) {
        self.rowspan.get()
    }

    fn span(&self) -> (r: Span) {
        self.span
    }

    fn empty() -> (r: Self) {
        let r = GridCell::new(Content(0));
        proof {
            NonZeroUsize::lemma_one_unique(r.colspan);
            NonZeroUsize::lemma_one_unique(r.rowspan);
        }
        r
    }
}

impl GridItem {
    /// The grid item with its properties read, ready for cell positioning;
    /// `dir` is the text direction, which decides which side of a column is
    /// its start.
    pub fn to_resolvable(&self, dir: Dir) -> (r: ResolvableGridItem<GridCell>)
        ensures
            match *self {
                GridItem::HLine(h) => r == ResolvableGridItem::<GridCell>::HLine {
                    y: h.y,
                    start: h.start,
                    end: h.end,
                    stroke: h.stroke,
                    span: h.span,
                    position: match h.position {
                        OuterVAlignment::Top => LinePosition::Before,
                        OuterVAlignment::Bottom => LinePosition::After,
                    },
                },
                GridItem::VLine(v) => r == ResolvableGridItem::<GridCell>::VLine {
                    x: v.x,
                    start: v.start,
                    end: v.end,
                    stroke: v.stroke,
                    span: v.span,
                    position: match v.position {
                        OuterHAlignment::Left => if dir == Dir::RTL {
                            LinePosition::After
                        } else {
                            LinePosition::Before
                        },
                        OuterHAlignment::Right => if dir == Dir::RTL {
                            LinePosition::Before
                        } else {
                            LinePosition::After
                        },
                        OuterHAlignment::Start => LinePosition::Before,
                        OuterHAlignment::End => LinePosition::After,
                    },
                },
                GridItem::Cell(c) => r == ResolvableGridItem::<GridCell>::Cell(c),
            },
    {
        match self {
            GridItem::HLine(hline) => ResolvableGridItem::HLine {
                y: hline.y,
                start: hline.start,
                end: hline.end,
                stroke: hline.stroke,
                span: hline.span,
                position: match hline.position {
                    OuterVAlignment::Top => LinePosition::Before,
                    OuterVAlignment::Bottom => LinePosition::After,
                },
            },
            GridItem::VLine(vline) => {
                let rtl = dir == Dir::RTL;
                ResolvableGridItem::VLine {
                    x: vline.x,
                    start: vline.start,
                    end: vline.end,
                    stroke: vline.stroke,
                    span: vline.span,
                    position: match vline.position {
                        OuterHAlignment::Left => if rtl {
                            LinePosition::After
                        } else {
                            LinePosition::Before
                        },
                        OuterHAlignment::Right => if rtl {
                            LinePosition::Before
                        } else {
                            LinePosition::After
                        },
                        OuterHAlignment::Start => LinePosition::Before,
                        OuterHAlignment::End => LinePosition::After,
                    },
                }
            },
            GridItem::Cell(cell) => ResolvableGridItem::Cell(*cell),
        }
    }
}


impl From<Content> for GridCell {
    /// A cell of the body with every property unset.
    fn from(body: Content) -> (r: Self) {
        let r = GridCell::new(body);
        proof {
            NonZeroUsize::lemma_one_unique(r.colspan);
            NonZeroUsize::lemma_one_unique(r.rowspan);
        }
        r
    }
}

impl vstd::std_specs::convert::FromSpecImpl<Content> for GridCell {
    open spec fn obeys_from_spec() -> bool {
        true
    }

    open spec fn from_spec(body: Content) -> Self {
        GridCell {
            body,
            x: Smart::Auto,
            y: Smart::Auto,
            colspan: NonZeroUsize::spec_one(),
            rowspan: NonZeroUsize::spec_one(),
            fill: Smart::Auto,
            align: Smart::Auto,
            inset: Smart::Auto,
            stroke: Sides { left: None, top: None, right: None, bottom: None },
            breakable: Smart::Auto,
            span: Span(0),
        }
    }
}

} // verus!
