//! Cells of a grid and where they are placed.

use vstd::prelude::*;
use vstd::arithmetic::div_mod::{lemma_fundamental_div_mod, lemma_fundamental_div_mod_converse};

use crate::align::Alignment;
use crate::container::Sizing;
use crate::content::{Func, Span};
use crate::geom::{in_range, Abs, Axes, Length, Rel, Sides, Smart};
use crate::grid::lines::{sum, Line, LinePosition};
use crate::grid::rowspans::raw_sizes;
use crate::visualize::{Paint, Stroke};

verus! {

/// A value that can be configured per cell.
#[derive(Clone, PartialEq, Eq, Hash, Debug)]
pub enum Celled<T> {
    /// A bare value, the same for all cells.
    Value(T),
    /// A closure mapping from cell coordinates to a value.
    Func(Func),
    /// An array of values corresponding to each column, repeating.
    Array(Vec<T>),
}

impl<T: Copy + Default> Celled<T> {
    /// Resolve the value based on the cell position: a bare value as it is,
    /// a function through `call` (which calls it with the cell's column and
    /// row), and an array by the column, cycling through it, or the default
    /// value if the array is empty.
    pub fn resolve<E, F>(&self, call: F, x: usize, y: usize) -> (r: Result<T, E>) where
        F: Fn(Func, usize, usize) -> Result<T, E>,

        requires
            *self matches Celled::Func(f) ==> call.requires((f, x, y)),
        ensures
            match self {
                Celled::Value(v) => r == Ok::<T, E>(*v),
                Celled::Func(f) => call.ensures((*f, x, y), r),
                Celled::Array(a) => if a@.len() > 0 {
                    r == Ok::<T, E>(a@[x as int % a@.len() as int])
                } else {
                    r matches Ok(d) && call_ensures(T::default, (), d)
                },
            },
    {
        match self {
            Celled::Value(v) => Ok(*v),
            Celled::Func(f) => call(*f, x, y),
            Celled::Array(a) => {
                if a.len() > 0 {
                    Ok(a[x % a.len()])
                } else {
                    Ok(T::default())
                }
            },
        }
    }
}

/// The result of resolving a `Celled`'s value according to styles.
/// Holds resolved values which depend on each grid cell's position.
/// When it is a function, however, it is only resolved when the function is
/// called.
#[derive(Clone, PartialEq, Eq, Hash, Debug)]
pub struct ResolvedCelled<T>(pub Celled<T>);

impl<T: Copy + Default> ResolvedCelled<T> {
    /// Resolve the value based on the cell position, as `Celled::resolve`
    /// does; `call` calls a function and resolves its result.
    pub fn resolve<E, F>(&self, call: F, x: usize, y: usize) -> (r: Result<T, E>) where
        F: Fn(Func, usize, usize) -> Result<T, E>,

        requires
            self.0 matches Celled::Func(f) ==> call.requires((f, x, y)),
        ensures
            match self.0 {
                Celled::Value(v) => r == Ok::<T, E>(v),
                Celled::Func(f) => call.ensures((f, x, y), r),
                Celled::Array(a) => if a@.len() > 0 {
                    r == Ok::<T, E>(a@[x as int % a@.len() as int])
                } else {
                    r matches Ok(d) && call_ensures(T::default, (), d)
                },
            },
    {
        self.0.resolve(call, x, y)
    }
}

/// Details about a resulting row piece.
#[derive(Clone, Copy, PartialEq, Eq, Structural, Hash, Debug)]
pub struct RowPiece {
    /// The height of the segment.
    pub height: Abs,
    /// The index of the row.
    pub y: usize,
}

/// A cell of a grid, with its properties resolved, ready for layout.
#[derive(Clone, PartialEq, Eq, Debug)]
pub struct Cell<T> {
    /// The cell's body: the cell element itself, carrying its final fields.
    pub body: T,
    /// The cell's fill.
    pub fill: Option<Paint>,
    /// The number of columns spanned by the cell (at least one).
    pub colspan: usize,
    /// The number of rows spanned by the cell (at least one).
    pub rowspan: usize,
    /// The cell's stroke on each side.
    pub stroke: Sides<Option<Stroke>>,
    /// Which stroke sides were explicitly overridden by the cell.
    pub stroke_overridden: Sides<bool>,
    /// Whether rows spanned by this cell can be placed in different regions.
    pub breakable: bool,
}

/// A grid entry.
#[derive(Clone, PartialEq, Eq, Debug)]
pub enum Entry<T> {
    /// An entry which holds a cell.
    Cell(Cell<T>),
    /// An entry which is merged with another cell.
    Merged {
        /// The index of the cell this entry is merged with.
        parent: usize,
    },
}

impl<T> Entry<T> {
    /// Obtains the cell inside this entry, if this is not a merged cell.
    pub fn as_cell(&self) -> (r: Option<&Cell<T>>)
        ensures
            match self {
                Entry::Cell(c) => r == Some(c),
                Entry::Merged { .. } => r is None,
            },
    {
        match self {
            Entry::Cell(cell) => Some(cell),
            Entry::Merged { .. } => None,
        }
    }
}

/// A grid item, possibly affected by automatic cell positioning: a line or a
/// cell.
pub enum GridItem<T> {
    /// A horizontal line in the grid.
    HLine {
        /// The row above which the line is drawn, or `auto` for the row after
        /// the last automatically positioned cell.
        y: Smart<usize>,
        /// The column at which the line starts.
        start: usize,
        /// The column before which the line ends, or `None` for the end.
        end: Option<usize>,
        /// The line's stroke.
        stroke: Option<Stroke>,
        /// The span of the line element.
        span: Span,
        /// Whether the line is drawn above or below row `y`.
        position: LinePosition,
    },
    /// A vertical line in the grid.
    VLine {
        /// The column before which the line is drawn, or `auto` for the column
        /// after the last automatically positioned cell.
        x: Smart<usize>,
        /// The row at which the line starts.
        start: usize,
        /// The row before which the line ends, or `None` for the end.
        end: Option<usize>,
        /// The line's stroke.
        stroke: Option<Stroke>,
        /// The span of the line element.
        span: Span,
        /// Whether the line is drawn before or after column `x`.
        position: LinePosition,
    },
    /// A cell in the grid.
    Cell(T),
}

/// Cell-like elements which are aware of their final properties in the grid,
/// and may have property overrides.
pub trait ResolvableCell: Sized {
    /// The requested column.
    spec fn spec_x(&self) -> Smart<usize>;

    /// The requested row.
    spec fn spec_y(&self) -> Smart<usize>;

    /// The number of columns spanned.
    spec fn spec_colspan(&self) -> usize;

    /// The number of rows spanned.
    spec fn spec_rowspan(&self) -> usize;

    /// The cell's span.
    spec fn spec_span(&self) -> Span;

    /// The final cell, given its position and the grid-wide properties.
    spec fn spec_resolve_cell(
        self,
        x: usize,
        y: usize,
        fill: Option<Paint>,
        align: Smart<Alignment>,
        inset: Sides<Option<Rel<Length>>>,
        stroke: Sides<Option<Option<Stroke>>>,
        breakable: bool,
    ) -> Cell<Self>;

    /// The cell that fills a position no cell was placed at.
    spec fn spec_empty() -> Self;

    /// Resolves the cell's fields, given its coordinates and the grid-wide
    /// fill, align, inset and stroke, plus the expected value of the
    /// `breakable` field.
    fn resolve_cell(
        self,
        x: usize,
        y: usize,
        fill: &Option<Paint>,
        align: Smart<Alignment>,
        inset: Sides<Option<Rel<Length>>>,
        stroke: Sides<Option<Option<Stroke>>>,
        breakable: bool,
    ) -> (r: Cell<Self>)
        ensures
            r == self.spec_resolve_cell(x, y, *fill, align, inset, stroke, breakable),
    ;

    /// Returns this cell's column override.
    fn x(&self) -> (r: Smart<usize>)
        ensures
            r == self.spec_x(),
    ;

    /// Returns this cell's row override.
    fn y(&self) -> (r: Smart<usize>)
        ensures
            r == self.spec_y(),
    ;

    /// The number of columns spanned by this cell.
    fn colspan(&self) -> (r: usize)
        ensures
            r == self.spec_colspan(),
            r >= 1,
    ;

    /// The number of rows spanned by this cell.
    fn rowspan(&self) -> (r: usize)
        ensures
            r == self.spec_rowspan(),
            r >= 1,
    ;

    /// The cell's span, for errors.
    fn span(&self) -> (r: Span)
        ensures
            r == self.spec_span(),
    ;

    /// A cell with no overrides, for positions no cell was placed at.
    fn empty() -> (r: Self)
        ensures
            r == Self::spec_empty(),
    ;
}

/// The grid-wide properties that apply to the cell at some position.
#[derive(Clone, Copy, PartialEq, Eq, Debug)]
pub struct CellProps {
    /// The fill.
    pub fill: Option<Paint>,
    /// The alignment.
    pub align: Smart<Alignment>,
    /// The inset.
    pub inset: Sides<Option<Rel<Length>>>,
    /// The stroke.
    pub stroke: Sides<Option<Option<Stroke>>>,
}

/// A grid of cells, including the columns, rows, and cell data.
pub struct CellGrid<T> {
    /// The grid cells, row by row.
    pub entries: Vec<Entry<T>>,
    /// The column tracks including gutter tracks.
    pub cols: Vec<Sizing>,
    /// The row tracks including gutter tracks.
    pub rows: Vec<Sizing>,
    /// The vertical lines before each column, or on the end border.
    pub vlines: Vec<Vec<Line>>,
    /// The horizontal lines on top of each row, or on the bottom border.
    pub hlines: Vec<Vec<Line>>,
    /// Whether this grid has gutters.
    pub has_gutter: bool,
}

/// A track of a list of tracks, the last one for indices past the end, or
/// the default when the list is empty.
pub open spec fn track_or(tracks: Seq<Sizing>, i: int, default: Sizing) -> Sizing {
    if 0 <= i < tracks.len() {
        tracks[i]
    } else if tracks.len() > 0 {
        tracks[tracks.len() - 1]
    } else {
        default
    }
}

/// The zero-sized track used for gutters that are not given.
pub open spec fn zero_track() -> Sizing {
    Sizing::Rel(Rel::spec_zero())
}

/// The content and gutter tracks along one axis with `n` content tracks.
pub open spec fn spec_tracks(tracks: Seq<Sizing>, gutter: Seq<Sizing>, n: int, has_gutter: bool) -> Seq<
    Sizing,
> {
    if n <= 0 {
        Seq::empty()
    } else if has_gutter {
        Seq::new(
            (2 * n - 1) as nat,
            |k: int|
                if k % 2 == 0 {
                    track_or(tracks, k / 2, Sizing::Auto)
                } else {
                    track_or(gutter, k / 2, zero_track())
                },
        )
    } else {
        Seq::new(n as nat, |k: int| track_or(tracks, k, Sizing::Auto))
    }
}

/// The number of content columns of a grid with the given column tracks.
pub open spec fn spec_columns(tracks_x: Seq<Sizing>) -> int {
    if tracks_x.len() >= 1 {
        tracks_x.len() as int
    } else {
        1
    }
}

/// The number of content rows of a grid with the given row tracks, columns
/// and number of entries.
pub open spec fn spec_row_count(tracks_y: Seq<Sizing>, c: int, len: int) -> int {
    let needed = len / c + if len % c > 0 {
        1int
    } else {
        0int
    };
    if tracks_y.len() >= needed {
        tracks_y.len() as int
    } else {
        needed
    }
}

/// A track of a list, the last one past the end, or the default.
fn get_or(tracks: &Vec<Sizing>, i: usize, default: Sizing) -> (r: Sizing)
    ensures
        r == track_or(tracks@, i as int, default),
{
    if i < tracks.len() {
        tracks[i]
    } else if tracks.len() > 0 {
        tracks[tracks.len() - 1]
    } else {
        default
    }
}

/// Collects the content and gutter tracks along one axis.
fn collect_tracks(tracks: &Vec<Sizing>, gutter: &Vec<Sizing>, n: usize, has_gutter: bool) -> (r: Vec<
    Sizing,
>)
    requires
        n >= 1,
    ensures
        r@ == spec_tracks(tracks@, gutter@, n as int, has_gutter),
{
    let mut out: Vec<Sizing> = Vec::new();
    let mut i: usize = 0;
    while i < n
        invariant
            i <= n,
            out@.len() == if has_gutter {
                2 * i
            } else {
                i as int
            },
            forall|k: int|
                0 <= k < out@.len() ==> #[trigger] out@[k] == if has_gutter {
                    if k % 2 == 0 {
                        track_or(tracks@, k / 2, Sizing::Auto)
                    } else {
                        track_or(gutter@, k / 2, zero_track())
                    }
                } else {
                    track_or(tracks@, k, Sizing::Auto)
                },
        decreases n - i,
    {
        out.push(get_or(tracks, i, Sizing::Auto));
        if has_gutter {
            out.push(get_or(gutter, i, Sizing::Rel(Rel::zero())));
        }
        i += 1;
    }
    if has_gutter {
        out.pop();
    }
    assert(out@ =~= spec_tracks(tracks@, gutter@, n as int, has_gutter));
    out
}

impl<T> CellGrid<T> {
    /// Generates the cell grid, given the tracks, gutters, lines and resolved
    /// entries.
    pub fn new_internal(
        tracks: Axes<&Vec<Sizing>>,
        gutter: Axes<&Vec<Sizing>>,
        vlines: Vec<Vec<Line>>,
        hlines: Vec<Vec<Line>>,
        entries: Vec<Entry<T>>,
    ) -> (r: Self)
        ensures
            r.has_gutter == (gutter.x@.len() > 0 || gutter.y@.len() > 0),
            r.cols@ == spec_tracks(
                tracks.x@,
                gutter.x@,
                spec_columns(tracks.x@),
                r.has_gutter,
            ),
            r.rows@ == spec_tracks(
                tracks.y@,
                gutter.y@,
                spec_row_count(tracks.y@, spec_columns(tracks.x@), entries@.len() as int),
                r.has_gutter,
            ),
            r.entries == entries,
            r.vlines == vlines,
            r.hlines == hlines,
    {
        let c = if tracks.x.len() >= 1 {
            tracks.x.len()
        } else {
            1
        };
        let len = entries.len();
        proof {
            assert(len % c > 0 ==> len / c < len) by (nonlinear_arith)
                requires
                    c >= 1,
                    len >= 0,
            ;
        }
        let needed = len / c + if len % c > 0 {
            1
        } else {
            0
        };
        proof {
            assert(len / c <= len) by (nonlinear_arith)
                requires
                    c >= 1,
                    len >= 0,
            ;
        }
        let given = tracks.y.len();
        let r = if given >= needed {
            given
        } else {
            needed
        };
        let has_gutter = gutter.x.len() > 0 || gutter.y.len() > 0;
        let cols = collect_tracks(tracks.x, gutter.x, c, has_gutter);
        let rows = if r >= 1 {
            collect_tracks(tracks.y, gutter.y, r, has_gutter)
        } else {
            let e: Vec<Sizing> = Vec::new();
            proof {
                assert(e@ =~= spec_tracks(tracks.y@, gutter.y@, 0, has_gutter));
            }
            e
        };
        CellGrid { entries, cols, rows, vlines, hlines, has_gutter }
    }

    /// The grid's structural invariant: tracks alternate with gutter tracks
    /// when there is gutter, every merged entry points at an entry, and
    /// positions can be doubled without overflow.
    pub open spec fn wf(&self) -> bool {
        &&& self.cols@.len() >= 1
        &&& self.has_gutter ==> self.cols@.len() % 2 == 1
        &&& self.has_gutter ==> self.rows@.len() == 0 || self.rows@.len() % 2 == 1
        &&& 2 * self.entries@.len() + 2 <= usize::MAX
        &&& 2 * self.cols@.len() + 2 <= usize::MAX
        &&& 2 * self.rows@.len() + 2 <= usize::MAX
        &&& self.entries@.len() <= self.spec_content_columns() * self.spec_content_rows()
        &&& forall|i: int|
            0 <= i < self.entries@.len() ==> match #[trigger] self.entries@[i] {
                Entry::Merged { parent } => parent < self.entries@.len(),
                Entry::Cell(_) => true,
            }
    }

    /// The number of content columns, not counting gutter.
    pub open spec fn spec_content_columns(&self) -> int {
        if self.has_gutter {
            (1 + self.cols@.len() / 2) as int
        } else {
            self.cols@.len() as int
        }
    }

    /// The number of content rows, not counting gutter.
    pub open spec fn spec_content_rows(&self) -> int {
        if self.has_gutter {
            ((self.rows@.len() + 1) / 2) as int
        } else {
            self.rows@.len() as int
        }
    }

    /// The parent cell of the entry at column `x` and row `y`.
    pub open spec fn spec_parent_cell(&self, x: int, y: int) -> Option<Cell<T>> {
        match self.spec_parent_cell_position(x, y) {
            Some((px, py)) => match self.spec_entry(px, py) {
                Some(Entry::Cell(c)) => Some(c),
                _ => None,
            },
            None => None,
        }
    }

    /// The index into the entries of the content position at column `x` and
    /// row `y`, or `None` for a gutter position.
    pub open spec fn spec_entry_index(&self, x: int, y: int) -> Option<int> {
        if self.has_gutter {
            if x % 2 == 0 && y % 2 == 0 {
                Some((y / 2) * self.spec_content_columns() + x / 2)
            } else {
                None
            }
        } else {
            Some(y * self.spec_content_columns() + x)
        }
    }

    /// The entry at column `x` and row `y`, or `None` for gutter or a position
    /// past the entries.
    pub open spec fn spec_entry(&self, x: int, y: int) -> Option<Entry<T>> {
        match self.spec_entry_index(x, y) {
            Some(i) => if 0 <= i < self.entries@.len() {
                Some(self.entries@[i])
            } else {
                None
            },
            None => None,
        }
    }

    /// The position of the parent cell of the entry at column `x` and row `y`.
    pub open spec fn spec_parent_cell_position(&self, x: int, y: int) -> Option<(int, int)> {
        match self.spec_entry(x, y) {
            Some(Entry::Cell(_)) => Some((x, y)),
            Some(Entry::Merged { parent }) => {
                let c = self.spec_content_columns();
                let factor = if self.has_gutter {
                    2int
                } else {
                    1int
                };
                Some((factor * (parent as int % c), factor * (parent as int / c)))
            },
            None => None,
        }
    }

    /// Get the grid entry in column `x` and row `y`.
    ///
    /// Returns `None` if it's a gutter cell.
    pub fn entry(&self, x: usize, y: usize) -> (r: Option<&Entry<T>>)
        requires
            self.wf(),
            x < self.cols@.len(),
            y < self.rows@.len(),
        ensures
            match self.spec_entry(x as int, y as int) {
                Some(e) => r == Some(&e),
                None => r is None,
            },
    {
        if self.has_gutter {
            if x % 2 == 0 && y % 2 == 0 {
                let c = 1 + self.cols.len() / 2;
                let row = y / 2;
                match row.checked_mul(c) {
                    Some(base) => match base.checked_add(x / 2) {
                        Some(i) => {
                            if i < self.entries.len() {
                                Some(&self.entries[i])
                            } else {
                                None
                            }
                        },
                        None => None,
                    },
                    None => None,
                }
            } else {
                None
            }
        } else {
            let c = self.cols.len();
            match y.checked_mul(c) {
                Some(base) => {
                    if base <= self.entries.len() && x < self.entries.len() - base {
                        Some(&self.entries[base + x])
                    } else {
                        None
                    }
                },
                None => None,
            }
        }
    }

    /// Get the cell in column `x` and row `y`.
    ///
    /// Returns `None` if it's a gutter cell or merged position.
    pub fn cell(&self, x: usize, y: usize) -> (r: Option<&Cell<T>>)
        requires
            self.wf(),
            x < self.cols@.len(),
            y < self.rows@.len(),
        ensures
            match self.spec_entry(x as int, y as int) {
                Some(Entry::Cell(c)) => r == Some(&c),
                _ => r is None,
            },
    {
        match self.entry(x, y) {
            Some(e) => e.as_cell(),
            None => None,
        }
    }

    /// Returns the position of the parent cell of the grid entry at the given
    /// position: the position itself for a cell, the parent's position for a
    /// merged entry, and `None` for gutter.
    pub fn parent_cell_position(&self, x: usize, y: usize) -> (r: Option<Axes<usize>>)
        requires
            self.wf(),
            x < self.cols@.len(),
            y < self.rows@.len(),
        ensures
            match self.spec_parent_cell_position(x as int, y as int) {
                Some((px, py)) => r matches Some(a) && a.x == px && a.y == py,
                None => r is None,
            },
            r matches Some(a) ==> a.x < self.cols@.len() && a.y < self.rows@.len(),
    {
        match self.entry(x, y) {
            Some(Entry::Cell(_)) => Some(Axes::new(x, y)),
            Some(Entry::Merged { parent }) => {
                let parent = *parent;
                let c = if self.has_gutter {
                    1 + self.cols.len() / 2
                } else {
                    self.cols.len()
                };
                proof {
                    let rr = self.spec_content_rows();
                    assert(parent / c <= parent) by (nonlinear_arith)
                        requires
                            c >= 1,
                            parent >= 0,
                    ;
                    assert(parent % c < c) by (nonlinear_arith)
                        requires
                            c >= 1,
                    ;
                    assert(parent / c < rr) by (nonlinear_arith)
                        requires
                            c >= 1,
                            parent >= 0,
                            parent < c * rr,
                    ;
                }
                if self.has_gutter {
                    Some(Axes::new(2 * (parent % c), 2 * (parent / c)))
                } else {
                    Some(Axes::new(parent % c, parent / c))
                }
            },
            None => None,
        }
    }

    /// Returns the parent cell of the entry at the given position: the cell
    /// itself, or the cell a merged position belongs to.
    pub fn parent_cell(&self, x: usize, y: usize) -> (r: Option<&Cell<T>>)
        requires
            self.wf(),
            x < self.cols@.len(),
            y < self.rows@.len(),
        ensures
            match self.spec_parent_cell(x as int, y as int) {
                Some(c) => r == Some(&c),
                None => r is None,
            },
    {
        match self.parent_cell_position(x, y) {
            Some(p) => self.cell(p.x, p.y),
            None => None,
        }
    }

    /// Returns the position of the actual parent cell of a position, even if
    /// it is gutter: then the parent of the nearest adjacent content cell
    /// which could span the gutter position, if it spans it, else `None`.
    pub fn effective_parent_cell_position(&self, x: usize, y: usize) -> (r: Option<Axes<usize>>)
        requires
            self.wf(),
            x < self.cols@.len(),
            y < self.rows@.len(),
        ensures
            self.has_gutter ==> match self.spec_parent_cell_position(
                x + x % 2,
                y + y % 2,
            ) {
                Some((px, py)) => if px <= x && py <= y {
                    r matches Some(a) && a.x == px && a.y == py
                } else {
                    r is None
                },
                None => r is None,
            },
            !self.has_gutter ==> match self.spec_parent_cell_position(x as int, y as int) {
                Some((px, py)) => r matches Some(a) && a.x == px && a.y == py,
                None => r is None,
            },
    {
        if self.has_gutter {
            match self.parent_cell_position(x + x % 2, y + y % 2) {
                Some(parent) => {
                    if parent.x <= x && parent.y <= y {
                        Some(parent)
                    } else {
                        None
                    }
                },
                None => None,
            }
        } else {
            self.parent_cell_position(x, y)
        }
    }

    /// Checks if the track with the given index is gutter.
    pub fn is_gutter_track(&self, index: usize) -> (r: bool)
        ensures
            r == (self.has_gutter && index % 2 == 1),
    {
        self.has_gutter && index % 2 == 1
    }

    /// Returns the effective colspan of a cell, considering the gutters it
    /// might span if the grid has gutters.
    pub fn effective_colspan_of_cell(&self, cell: &Cell<T>) -> (r: usize)
        requires
            cell.colspan >= 1,
            2 * cell.colspan <= usize::MAX,
        ensures
            r == if self.has_gutter {
                2 * cell.colspan - 1
            } else {
                cell.colspan as int
            },
    {
        if self.has_gutter {
            2 * cell.colspan - 1
        } else {
            cell.colspan
        }
    }

    /// Returns the effective rowspan of a cell, considering the gutters it
    /// might span if the grid has gutters.
    pub fn effective_rowspan_of_cell(&self, cell: &Cell<T>) -> (r: usize)
        requires
            cell.rowspan >= 1,
            2 * cell.rowspan <= usize::MAX,
        ensures
            r == if self.has_gutter {
                2 * cell.rowspan - 1
            } else {
                cell.rowspan as int
            },
    {
        if self.has_gutter {
            2 * cell.rowspan - 1
        } else {
            cell.rowspan
        }
    }
}

/// Why a cell could not be positioned.
#[derive(Clone, Copy, PartialEq, Eq, Structural, Hash, Debug)]
pub enum PositionError {
    /// The requested column does not exist.
    InvalidColumn(usize),
    /// The position does not fit into a machine word.
    TooLarge,
    /// The requested row has no free column left.
    RowFull(usize),
}

/// Whether the position `k` of the slots holds something.
pub open spec fn occupied<S>(slots: Seq<Option<S>>, k: int) -> bool {
    0 <= k < slots.len() && slots[k] is Some
}

/// The first position at or after `k` that holds nothing.
pub open spec fn first_free_from<S>(slots: Seq<Option<S>>, k: int) -> int
    decreases slots.len() - k,
{
    if occupied(slots, k) {
        first_free_from(slots, k + 1)
    } else {
        k
    }
}

/// The position of the first free row at or after row `r` in column `x`.
pub open spec fn first_free_in_column<S>(slots: Seq<Option<S>>, x: int, c: int, r: int) -> Result<
    int,
    PositionError,
>
    decreases slots.len() - r,
{
    let idx = r * c + x;
    if idx > usize::MAX {
        Err(PositionError::TooLarge)
    } else if occupied(slots, idx) && 0 <= r < slots.len() {
        first_free_in_column(slots, x, c, r + 1)
    } else {
        Ok(idx)
    }
}

/// The first free position in `k..last`, if any.
pub open spec fn first_free_in_range<S>(slots: Seq<Option<S>>, k: int, last: int) -> Option<int>
    decreases last - k,
{
    if k >= last {
        None
    } else if !occupied(slots, k) {
        Some(k)
    } else {
        first_free_in_range(slots, k + 1, last)
    }
}

/// Where a cell with the requested column and row goes, given the occupied
/// positions, the automatic position counter and the number of columns; on
/// success also the new counter.
pub open spec fn spec_cell_position<S>(
    cell_x: Smart<usize>,
    cell_y: Smart<usize>,
    slots: Seq<Option<S>>,
    auto_index: int,
    c: int,
) -> Result<(int, int), PositionError> {
    match (cell_x, cell_y) {
        (Smart::Auto, Smart::Auto) => {
            let k = first_free_from(slots, auto_index);
            if k + 1 > usize::MAX {
                Err(PositionError::TooLarge)
            } else {
                Ok((k, k + 1))
            }
        },
        (Smart::Custom(x), Smart::Custom(y)) => {
            if x >= c {
                Err(PositionError::InvalidColumn(x))
            } else if y * c + x > usize::MAX {
                Err(PositionError::TooLarge)
            } else {
                Ok((y * c + x, auto_index))
            }
        },
        (Smart::Custom(x), Smart::Auto) => {
            if x >= c {
                Err(PositionError::InvalidColumn(x))
            } else {
                match first_free_in_column(slots, x as int, c, 0) {
                    Ok(k) => Ok((k, auto_index)),
                    Err(e) => Err(e),
                }
            }
        },
        (Smart::Auto, Smart::Custom(y)) => {
            if y * c > usize::MAX || y * c + c > usize::MAX {
                Err(PositionError::TooLarge)
            } else {
                match first_free_in_range(slots, y * c, y * c + c) {
                    Some(k) => Ok((k, auto_index)),
                    None => Err(PositionError::RowFull(y)),
                }
            }
        },
    }
}

/// Translates a column and row to the index in a row-major vector.
fn cell_index(x: usize, y: usize, columns: usize) -> (r: Result<usize, PositionError>)
    ensures
        r == if y * columns + x > usize::MAX {
            Err(PositionError::TooLarge)
        } else {
            Ok((y * columns + x) as usize)
        },
{
    match y.checked_mul(columns) {
        Some(row_index) => match row_index.checked_add(x) {
            Some(i) => Ok(i),
            None => Err(PositionError::TooLarge),
        },
        None => {
            proof {
                assert(y * columns + x > usize::MAX) by (nonlinear_arith)
                    requires
                        y * columns > usize::MAX,
                        x >= 0,
                ;
            }
            Err(PositionError::TooLarge)
        },
    }
}

/// Whether the position `k` of the vector holds something.
fn is_occupied<S>(slots: &Vec<Option<S>>, k: usize) -> (r: bool)
    ensures
        r == occupied(slots@, k as int),
{
    k < slots.len() && slots[k].is_some()
}

/// Given a cell's requested column and row, the vector with the resolved cell
/// positions, the `auto_index` counter (the position of the next `(auto,
/// auto)` cell) and the number of columns, returns the final index of the
/// cell in the vector of resolved cells.
pub fn resolve_cell_position<S>(
    cell_x: Smart<usize>,
    cell_y: Smart<usize>,
    resolved_cells: &Vec<Option<S>>,
    auto_index: &mut usize,
    columns: usize,
) -> (r: Result<usize, PositionError>)
    requires
        columns >= 1,
    ensures
        match spec_cell_position(
            cell_x,
            cell_y,
            resolved_cells@,
            *old(auto_index) as int,
            columns as int,
        ) {
            Ok((k, a)) => r matches Ok(v) && v as int == k && *final(auto_index) == a,
            Err(e) => r == Err::<usize, PositionError>(e),
        },
        r is Err ==> *final(auto_index) == *old(auto_index),
{
    match (cell_x, cell_y) {
        (Smart::Auto, Smart::Auto) => {
            let len = resolved_cells.len();
            let mut resolved_index = *auto_index;
            while is_occupied(resolved_cells, resolved_index)
                invariant
                    len == resolved_cells@.len(),
                    first_free_from(resolved_cells@, resolved_index as int) == first_free_from(
                        resolved_cells@,
                        *old(auto_index) as int,
                    ),
                decreases resolved_cells@.len() - resolved_index,
            {
                resolved_index += 1;
            }
            if resolved_index == usize::MAX {
                return Err(PositionError::TooLarge);
            }
            *auto_index = resolved_index + 1;
            Ok(resolved_index)
        },
        (Smart::Custom(x), Smart::Custom(y)) => {
            if x >= columns {
                return Err(PositionError::InvalidColumn(x));
            }
            cell_index(x, y, columns)
        },
        (Smart::Custom(x), Smart::Auto) => {
            if x >= columns {
                return Err(PositionError::InvalidColumn(x));
            }
            let len = resolved_cells.len();
            let mut resolved_y: usize = 0;
            loop
                invariant
                    len == resolved_cells@.len(),
                    *auto_index == *old(auto_index),
                    cell_x == Smart::Custom(x),
                    cell_y == Smart::<usize>::Auto,
                    columns >= 1,
                    x < columns,
                    resolved_y <= resolved_cells@.len(),
                    first_free_in_column(resolved_cells@, x as int, columns as int, resolved_y as int)
                        == first_free_in_column(resolved_cells@, x as int, columns as int, 0),
                decreases resolved_cells@.len() - resolved_y,
            {
                let idx = cell_index(x, resolved_y, columns);
                match idx {
                    Err(e) => {
                        assert(first_free_in_column(
                            resolved_cells@,
                            x as int,
                            columns as int,
                            resolved_y as int,
                        ) == Err::<int, PositionError>(e));
                        return Err(e);
                    },
                    Ok(i) => {
                        if is_occupied(resolved_cells, i) {
                            proof {
                                assert(resolved_y * columns >= resolved_y) by (nonlinear_arith)
                                    requires
                                        columns >= 1,
                                ;
                            }
                            resolved_y += 1;
                        } else {
                            return Ok(i);
                        }
                    },
                }
            }
        },
        (Smart::Auto, Smart::Custom(y)) => {
            let first_row_pos = match cell_index(0, y, columns) {
                Ok(p) => p,
                Err(e) => {
                    return Err(e);
                },
            };
            let last_row_pos = match first_row_pos.checked_add(columns) {
                Some(p) => p,
                None => {
                    return Err(PositionError::TooLarge);
                },
            };
            let mut k = first_row_pos;
            while k < last_row_pos
                invariant
                    *auto_index == *old(auto_index),
                    cell_x == Smart::<usize>::Auto,
                    cell_y == Smart::Custom(y),
                    first_row_pos == y * columns,
                    last_row_pos == y * columns + columns,
                    first_row_pos <= k <= last_row_pos,
                    first_free_in_range(resolved_cells@, k as int, last_row_pos as int)
                        == first_free_in_range(
                        resolved_cells@,
                        first_row_pos as int,
                        last_row_pos as int,
                    ),
                decreases last_row_pos - k,
            {
                if !is_occupied(resolved_cells, k) {
                    assert(first_free_in_range(resolved_cells@, k as int, last_row_pos as int)
                        == Some(k as int));
                    return Ok(k);
                }
                k += 1;
            }
            Err(PositionError::RowFull(y))
        },
    }
}


/// Why the cells and lines of a grid could not be resolved.
#[derive(Clone, Copy, PartialEq, Eq, Structural, Hash, Debug)]
pub enum GridError {
    /// Too many cells or lines were given.
    TooManyItems(Span),
    /// A line ends before it starts.
    LineEndsBeforeStart(Span),
    /// A cell could not be positioned.
    Position(Span, PositionError),
    /// A cell's colspan would exceed the available columns.
    ColspanExceeds(Span),
    /// A cell would span an exceedingly large position.
    SpanTooLarge(Span),
    /// A cell's position is too large.
    PositionTooLarge(Span),
    /// A second cell was placed at a position.
    SlotTaken {
        /// The span of the cell.
        span: Span,
        /// The column.
        x: usize,
        /// The row.
        y: usize,
    },
    /// A cell would span a previously placed cell.
    SpanOverlap {
        /// The span of the cell.
        span: Span,
        /// The column of the occupied position.
        x: usize,
        /// The row of the occupied position.
        y: usize,
    },
    /// A horizontal line was placed at an invalid row.
    InvalidRow {
        /// The span of the line.
        span: Span,
        /// The row.
        y: usize,
    },
    /// A horizontal line was placed below the bottom border.
    HLineAfterBottom {
        /// The span of the line.
        span: Span,
        /// The row.
        y: usize,
    },
    /// A vertical line was placed at an invalid column.
    InvalidColumn {
        /// The span of the line.
        span: Span,
        /// The column.
        x: usize,
    },
    /// A vertical line was placed after the end border.
    VLineAfterEnd {
        /// The span of the line.
        span: Span,
        /// The column.
        x: usize,
    },
}

/// Why a grid could not be resolved: its cells and lines are inconsistent, or
/// a grid-wide property could not be computed.
#[derive(Clone, Copy, PartialEq, Eq, Debug)]
pub enum ResolveError<E> {
    /// The cells and lines are inconsistent.
    Grid(GridError),
    /// A grid-wide property could not be computed.
    Props(E),
}

/// What a position of a grid under construction holds: the cell of some
/// item, or a position merged with the cell at some index.
pub enum Slot {
    /// The cell of the item with this index.
    Parent(int),
    /// A position merged with the cell at this index.
    Merged(int),
}

/// The state of placing the items of a grid: the positions, the automatic
/// position counter, and the lines waiting to be placed.
pub struct Placement {
    /// The positions, row by row.
    pub slots: Seq<Option<Slot>>,
    /// The position of the next automatically positioned cell.
    pub auto_index: int,
    /// The horizontal lines, in order.
    pub hlines: Seq<(Span, Line)>,
    /// The vertical lines, in order.
    pub vlines: Seq<(Span, Line)>,
}

/// Whether position `k` lies in the rectangle of `rs` rows and `cs` columns
/// whose top left position is `idx`, in a grid of `c` columns.
pub open spec fn rect_contains(idx: int, c: int, cs: int, rs: int, k: int) -> bool {
    k >= idx && (k - idx) / c < rs && (k - idx) % c < cs
}

/// The first column offset at or after `q` in row offset `r` of the rectangle
/// at `idx` that is occupied, not counting the top left position.
pub open spec fn first_overlap_in_row<S>(
    slots: Seq<Option<S>>,
    idx: int,
    c: int,
    cs: int,
    r: int,
    q: int,
) -> Option<int>
    decreases cs - q,
{
    if q >= cs {
        None
    } else if (r != 0 || q != 0) && occupied(slots, idx + c * r + q) {
        Some(q)
    } else {
        first_overlap_in_row(slots, idx, c, cs, r, q + 1)
    }
}

/// The first occupied position of the rectangle at `idx`, from row offset `r`
/// on in row-major order, not counting the top left position, as row and
/// column offsets.
pub open spec fn first_overlap<S>(slots: Seq<Option<S>>, idx: int, c: int, cs: int, rs: int, r: int) -> Option<
    (int, int),
>
    decreases rs - r,
{
    if r >= rs {
        None
    } else {
        match first_overlap_in_row(slots, idx, c, cs, r, 0) {
            Some(q) => Some((r, q)),
            None => first_overlap(slots, idx, c, cs, rs, r + 1),
        }
    }
}

/// The number of positions after growing the grid so that it holds position
/// `largest` and whole rows of `c` columns.
pub open spec fn grown_len(largest: int, c: int) -> int {
    let nl = largest + 1;
    nl + (c - nl % c) % c
}

/// The positions with the rectangle at `idx` taken by the cell of item `i`.
pub open spec fn fill_span(slots: Seq<Option<Slot>>, idx: int, c: int, cs: int, rs: int, i: int) -> Seq<
    Option<Slot>,
> {
    Seq::new(
        slots.len(),
        |k: int|
            if k == idx {
                Some(Slot::Parent(i))
            } else if rect_contains(idx, c, cs, rs, k) {
                Some(Slot::Merged(idx))
            } else {
                slots[k]
            },
    )
}

/// Places the cell of item `i` with `c` columns.
pub open spec fn spec_place_cell<T: ResolvableCell>(st: Placement, i: int, cell: T, c: int) -> Result<
    Placement,
    GridError,
> {
    let span = cell.spec_span();
    match spec_cell_position(cell.spec_x(), cell.spec_y(), st.slots, st.auto_index, c) {
        Err(e) => Err(GridError::Position(span, e)),
        Ok((idx, auto)) => {
            let x = idx % c;
            let y = idx / c;
            let cs = cell.spec_colspan() as int;
            let rs = cell.spec_rowspan() as int;
            if cs > c - x {
                Err(GridError::ColspanExceeds(span))
            } else if c * (rs - 1) + idx + (cs - 1) > usize::MAX {
                Err(GridError::SpanTooLarge(span))
            } else {
                let largest = c * (rs - 1) + idx + (cs - 1);
                if largest >= st.slots.len() && grown_len(largest, c) > usize::MAX {
                    Err(GridError::PositionTooLarge(span))
                } else {
                    let slots1 = if largest >= st.slots.len() {
                        st.slots + Seq::new(
                            (grown_len(largest, c) - st.slots.len()) as nat,
                            |j: int| None::<Slot>,
                        )
                    } else {
                        st.slots
                    };
                    if slots1[idx] is Some {
                        Err(GridError::SlotTaken { span, x: x as usize, y: y as usize })
                    } else {
                        match first_overlap(slots1, idx, c, cs, rs, 0) {
                            Some((r, q)) => Err(
                                GridError::SpanOverlap {
                                    span,
                                    x: (x + q) as usize,
                                    y: (y + r) as usize,
                                },
                            ),
                            None => Ok(
                                Placement {
                                    slots: fill_span(slots1, idx, c, cs, rs, i),
                                    auto_index: auto,
                                    hlines: st.hlines,
                                    vlines: st.vlines,
                                },
                            ),
                        }
                    }
                }
            }
        },
    }
}

/// The row of an hline without a row: below the last automatically
/// positioned cell, or the top.
pub open spec fn spec_auto_row(auto_index: int, c: int) -> int {
    if auto_index == 0 {
        0
    } else {
        (auto_index - 1) / c + 1
    }
}

/// The column of a vline without a column: after the last automatically
/// positioned cell, or the start.
pub open spec fn spec_auto_col(auto_index: int, c: int) -> int {
    if auto_index == 0 {
        0
    } else {
        (auto_index - 1) % c + 1
    }
}

/// Places the item with index `i` with `c` columns.
pub open spec fn spec_place_item<T: ResolvableCell>(st: Placement, i: int, item: GridItem<T>, c: int) -> Result<
    Placement,
    GridError,
> {
    match item {
        GridItem::HLine { y, start, end, stroke, span, position } => {
            let yy = match y {
                Smart::Custom(v) => v as int,
                Smart::Auto => spec_auto_row(st.auto_index, c),
            };
            if end matches Some(e) && e < start {
                Err(GridError::LineEndsBeforeStart(span))
            } else {
                Ok(
                    Placement {
                        hlines: st.hlines.push(
                            (span, Line { index: yy as usize, start, end, stroke, position }),
                        ),
                        ..st
                    },
                )
            }
        },
        GridItem::VLine { x, start, end, stroke, span, position } => {
            let xx = match x {
                Smart::Custom(v) => v as int,
                Smart::Auto => spec_auto_col(st.auto_index, c),
            };
            if end matches Some(e) && e < start {
                Err(GridError::LineEndsBeforeStart(span))
            } else {
                Ok(
                    Placement {
                        vlines: st.vlines.push(
                            (span, Line { index: xx as usize, start, end, stroke, position }),
                        ),
                        ..st
                    },
                )
            }
        },
        GridItem::Cell(t) => spec_place_cell(st, i, t, c),
    }
}

/// Places all items in order with `c` columns.
pub open spec fn spec_place_items<T: ResolvableCell>(items: Seq<GridItem<T>>, c: int) -> Result<
    Placement,
    GridError,
>
    decreases items.len(),
{
    if items.len() == 0 {
        Ok(Placement { slots: seq![], auto_index: 0, hlines: seq![], vlines: seq![] })
    } else {
        match spec_place_items(items.drop_last(), c) {
            Err(e) => Err(e),
            Ok(st) => spec_place_item(st, items.len() - 1, items.last(), c),
        }
    }
}

/// Whether the cell element `t` at position `k` of a grid of `c` columns is
/// where it asked to be: in its requested column and row, where it
/// requested them.
pub open spec fn at_requested<T: ResolvableCell>(t: T, k: int, c: int) -> bool {
    &&& t.spec_x() matches Smart::Custom(x) ==> k % c == x
    &&& t.spec_y() matches Smart::Custom(y) ==> k / c == y
}

/// Whether position `k` of a placement of `items` with `c` columns is as it
/// should be: a parent position holds a cell item where that cell asked to
/// be; a merged position lies after its parent, inside the parent's span.
pub open spec fn slot_fact<T: ResolvableCell>(items: Seq<GridItem<T>>, p: Placement, k: int, c: int) -> bool {
    match p.slots[k] {
        Some(Slot::Parent(i)) => 0 <= i < items.len() && match items[i] {
            GridItem::Cell(t) => at_requested(t, k, c),
            _ => false,
        },
        Some(Slot::Merged(j)) => 0 <= j < k && match p.slots[j] {
            Some(Slot::Parent(i)) => 0 <= i < items.len() && match items[i] {
                GridItem::Cell(t) => rect_contains(
                    j,
                    c,
                    t.spec_colspan() as int,
                    t.spec_rowspan() as int,
                    k,
                ),
                _ => false,
            },
            _ => false,
        },
        None => true,
    }
}

/// The facts of a placement of `items` with `c` columns: whole rows of
/// positions, each of them as it should be.
pub open spec fn placement_facts<T: ResolvableCell>(items: Seq<GridItem<T>>, p: Placement, c: int) -> bool {
    &&& p.slots.len() as int % c == 0
    &&& forall|k: int| 0 <= k < p.slots.len() ==> #[trigger] slot_fact(items, p, k, c)
}

proof fn lemma_column_position<S>(slots: Seq<Option<S>>, x: int, c: int, r: int)
    requires
        0 <= x < c,
        r >= 0,
    ensures
        first_free_in_column(slots, x, c, r) matches Ok(k) ==> k >= 0 && k % c == x,
    decreases slots.len() - r,
{
    let idx = r * c + x;
    if idx <= usize::MAX && occupied(slots, idx) && 0 <= r < slots.len() {
        lemma_column_position(slots, x, c, r + 1);
    } else {
        assert(idx >= 0) by (nonlinear_arith)
            requires
                r >= 0,
                c >= 1,
                x >= 0,
                idx == r * c + x,
        ;
        lemma_fundamental_div_mod_converse(idx, c, r, x);
    }
}

proof fn lemma_range_position<S>(slots: Seq<Option<S>>, k: int, last: int)
    ensures
        first_free_in_range(slots, k, last) matches Some(j) ==> k <= j < last,
    decreases last - k,
{
    if k < last && occupied(slots, k) {
        lemma_range_position(slots, k + 1, last);
    }
}

proof fn lemma_first_free_from_ge<S>(slots: Seq<Option<S>>, k: int)
    ensures
        first_free_from(slots, k) >= k,
    decreases slots.len() - k,
{
    if occupied(slots, k) {
        lemma_first_free_from_ge(slots, k + 1);
    }
}

/// A placed cell lands where it asked to be.
proof fn lemma_position_requested<S>(
    cx: Smart<usize>,
    cy: Smart<usize>,
    slots: Seq<Option<S>>,
    auto_index: int,
    c: int,
)
    requires
        c >= 1,
        auto_index >= 0,
    ensures
        spec_cell_position(cx, cy, slots, auto_index, c) matches Ok((k, a)) ==> k >= 0 && (cx matches Smart::Custom(x) ==> k % c == x) && (cy matches Smart::Custom(y) ==> k / c == y),
{
    match (cx, cy) {
        (Smart::Auto, Smart::Auto) => {
            lemma_first_free_from_ge(slots, auto_index);
        },
        (Smart::Custom(x), Smart::Custom(y)) => {
            if x < c {
                assert(y * c + x >= 0) by (nonlinear_arith)
                    requires
                        c >= 1,
                        y >= 0,
                        x >= 0,
                ;
                lemma_fundamental_div_mod_converse(y * c + x, c, y as int, x as int);
            }
        },
        (Smart::Custom(x), Smart::Auto) => {
            if x < c {
                lemma_column_position(slots, x as int, c, 0);
            }
        },
        (Smart::Auto, Smart::Custom(y)) => {
            lemma_range_position(slots, y * c, y * c + c);
            if let Some(k) = first_free_in_range(slots, y * c, y * c + c) {
                assert(y * c >= 0) by (nonlinear_arith)
                    requires
                        c >= 1,
                        y >= 0,
                ;
                lemma_fundamental_div_mod_converse(k, c, y as int, k - y * c);
            }
        },
    }
}

proof fn lemma_grown_len(largest: int, c: int)
    requires
        c >= 1,
        largest >= 0,
    ensures
        grown_len(largest, c) % c == 0,
        grown_len(largest, c) > largest,
{
    let nl = largest + 1;
    let m = nl % c;
    lemma_fundamental_div_mod(nl, c);
    if m == 0 {
        lemma_fundamental_div_mod_converse(c, c, 1, 0);
    } else {
        lemma_fundamental_div_mod_converse(c - m, c, 0, c - m);
        assert(nl + (c - m) == c * (nl / c + 1)) by (nonlinear_arith)
            requires
                nl == c * (nl / c) + m,
        ;
        lemma_fundamental_div_mod_converse(nl + (c - m), c, nl / c + 1, 0);
    }
}

proof fn lemma_no_overlap_in_row<S>(slots: Seq<Option<S>>, idx: int, c: int, cs: int, r: int, q: int, q2: int)
    requires
        first_overlap_in_row(slots, idx, c, cs, r, q) is None,
        q <= q2 < cs,
        r != 0 || q2 != 0,
    ensures
        !occupied(slots, idx + c * r + q2),
    decreases cs - q,
{
    if q < q2 {
        lemma_no_overlap_in_row(slots, idx, c, cs, r, q + 1, q2);
    }
}

proof fn lemma_no_overlap<S>(slots: Seq<Option<S>>, idx: int, c: int, cs: int, rs: int, r: int, r2: int, q2: int)
    requires
        first_overlap(slots, idx, c, cs, rs, r) is None,
        r <= r2 < rs,
        0 <= q2 < cs,
        r2 != 0 || q2 != 0,
    ensures
        !occupied(slots, idx + c * r2 + q2),
    decreases rs - r,
{
    if r < r2 {
        lemma_no_overlap(slots, idx, c, cs, rs, r + 1, r2, q2);
    } else {
        lemma_no_overlap_in_row(slots, idx, c, cs, r2, 0, q2);
    }
}

/// Placing one item keeps the facts of the placement.
proof fn lemma_place_item_facts<T: ResolvableCell>(items: Seq<GridItem<T>>, st: Placement, c: int)
    requires
        c >= 1,
        items.len() > 0,
        st.auto_index >= 0,
        placement_facts(items.drop_last(), st, c),
        spec_place_item(st, items.len() - 1, items.last(), c) is Ok,
    ensures
        placement_facts(items, spec_place_item(st, items.len() - 1, items.last(), c)->Ok_0, c),
        spec_place_item(st, items.len() - 1, items.last(), c)->Ok_0.auto_index >= 0,
{
    let n = items.len() - 1;
    let prev = items.drop_last();
    assert forall|i: int| 0 <= i < n implies prev[i] == items[i] by {}
    match items.last() {
        GridItem::Cell(t) => {
            lemma_position_requested(t.spec_x(), t.spec_y(), st.slots, st.auto_index, c);
            let (idx, auto) = spec_cell_position(t.spec_x(), t.spec_y(), st.slots, st.auto_index, c)->Ok_0;
            let cs = t.spec_colspan() as int;
            let rs = t.spec_rowspan() as int;
            let largest = c * (rs - 1) + idx + (cs - 1);
            let slots1 = if largest >= st.slots.len() {
                st.slots + Seq::new((grown_len(largest, c) - st.slots.len()) as nat, |j: int| None::<Slot>)
            } else {
                st.slots
            };
            if largest >= st.slots.len() {
                lemma_grown_len(largest, c);
            }
            let p = spec_place_item(st, items.len() - 1, items.last(), c)->Ok_0;
            assert(p.slots == fill_span(slots1, idx, c, cs, rs, n));
            assert(slots1.len() as int % c == 0);
            // Positions that were taken stay as they were.
            assert forall|k: int| 0 <= k < slots1.len() && slots1[k] is Some implies p.slots[k] == slots1[k] by {
                if k == idx {
                } else if rect_contains(idx, c, cs, rs, k) {
                    let ro = (k - idx) / c;
                    let co = (k - idx) % c;
                    lemma_fundamental_div_mod(k - idx, c);
                    lemma_no_overlap(slots1, idx, c, cs, rs, 0, ro, co);
                    assert(k == idx + c * ro + co);
                }
            }
            assert forall|k: int|
                0 <= k < slots1.len() && slots1[k] is Some implies k < st.slots.len() && slots1[k] == st.slots[k] by {}
            assert forall|k: int| 0 <= k < p.slots.len() implies #[trigger] slot_fact(items, p, k, c) by {
                if k != idx && !rect_contains(idx, c, cs, rs, k) {
                    assert(p.slots[k] == slots1[k]);
                    if slots1[k] is Some {
                        assert(slot_fact(prev, st, k, c));
                        assert(st.slots[k] == p.slots[k]);
                        match st.slots[k] {
                            Some(Slot::Merged(j)) => {
                                assert(p.slots[j] == st.slots[j]);
                            },
                            _ => {},
                        }
                    }
                } else if k != idx {
                    assert(p.slots[idx] == Some(Slot::Parent(n)));
                }
            }
        },
        _ => {
            let p = spec_place_item(st, items.len() - 1, items.last(), c)->Ok_0;
            assert(p.slots == st.slots);
            assert forall|k: int| 0 <= k < p.slots.len() implies #[trigger] slot_fact(items, p, k, c) by {
                assert(slot_fact(prev, st, k, c));
                match st.slots[k] {
                    Some(Slot::Merged(j)) => {
                        assert(p.slots[j] == st.slots[j]);
                    },
                    _ => {},
                }
            }
        },
    }
}

/// The facts of the placement of the items of a grid: it covers whole
/// rows; each cell stands in the column and row it asked for, where it
/// asked for them; and each position merged with a cell lies after that
/// cell's position, inside its span.
pub proof fn lemma_placement_facts<T: ResolvableCell>(items: Seq<GridItem<T>>, c: int)
    requires
        c >= 1,
        spec_place_items(items, c) is Ok,
    ensures
        placement_facts(items, spec_place_items(items, c)->Ok_0, c),
        spec_place_items(items, c)->Ok_0.auto_index >= 0,
    decreases items.len(),
{
    if items.len() == 0 {
        assert(0int % c == 0) by {
            lemma_fundamental_div_mod_converse(0, c, 0, 0);
        }
    } else {
        lemma_placement_facts(items.drop_last(), c);
        let st = spec_place_items(items.drop_last(), c)->Ok_0;
        lemma_place_item_facts(items, st, c);
    }
}

/// The groups of lines with a line added to the group of its index.
pub open spec fn push_line(groups: Seq<Seq<Line>>, line: Line) -> Seq<Seq<Line>> {
    let i = line.index as int;
    let g = if groups.len() <= i {
        groups + Seq::new((i + 1 - groups.len()) as nat, |j: int| Seq::<Line>::empty())
    } else {
        groups
    };
    g.update(i, g[i].push(line))
}

/// Groups the pending lines by index, after checking that each fits into the
/// `amount` tracks: rows for horizontal lines, columns for vertical ones. A
/// line after a track becomes a line before the next one, unless it is
/// placed in gutter.
pub open spec fn spec_place_lines(
    pending: Seq<(Span, Line)>,
    amount: int,
    has_gutter: bool,
    horizontal: bool,
) -> Result<Seq<Seq<Line>>, GridError>
    decreases pending.len(),
{
    if pending.len() == 0 {
        Ok(seq![])
    } else {
        match spec_place_lines(pending.drop_last(), amount, has_gutter, horizontal) {
            Err(e) => Err(e),
            Ok(groups) => {
                let (span, line) = pending.last();
                let i = line.index as int;
                if i > amount {
                    if horizontal {
                        Err(GridError::InvalidRow { span, y: line.index })
                    } else {
                        Err(GridError::InvalidColumn { span, x: line.index })
                    }
                } else if i == amount && line.position == LinePosition::After {
                    if horizontal {
                        Err(GridError::HLineAfterBottom { span, y: line.index })
                    } else {
                        Err(GridError::VLineAfterEnd { span, x: line.index })
                    }
                } else if i >= usize::MAX {
                    Err(GridError::PositionTooLarge(span))
                } else if line.position == LinePosition::After && (!has_gutter || i + 1 == amount) {
                    Ok(
                        push_line(
                            groups,
                            Line { index: (i + 1) as usize, position: LinePosition::Before, ..line },
                        ),
                    )
                } else {
                    Ok(push_line(groups, line))
                }
            },
        }
    }
}

/// Whether some track in `y..y + count` is automatically sized, where tracks
/// past the end repeat the last one, or are `default` when there are none.
pub open spec fn any_auto(tracks: Seq<Sizing>, y: int, count: int, default: Sizing) -> bool {
    exists|j: int| y <= j < y + count && (#[trigger] track_or(tracks, j, default)) is Auto
}

/// Whether a cell at row `y` spanning `rowspan` rows is breakable: whether it
/// spans an automatically sized row or gutter row.
pub open spec fn spec_breakable(tracks_y: Seq<Sizing>, gutter_y: Seq<Sizing>, y: int, rowspan: int) -> bool {
    any_auto(tracks_y, y, rowspan, Sizing::Auto) || any_auto(gutter_y, y, rowspan - 1, zero_track())
}

/// Whether some track in `y..y + count` is automatically sized.
fn find_auto(tracks: &Vec<Sizing>, y: usize, count: usize, default: Sizing) -> (r: bool)
    ensures
        r == any_auto(tracks@, y as int, count as int, default),
{
    let len = tracks.len();
    if count == 0 {
        return false;
    }
    if y >= len {
        let t = get_or(tracks, y, default);
        proof {
            assert(track_or(tracks@, y as int, default) == t);
            if !(t is Auto) {
                assert forall|j: int| y <= j < y + count implies !((#[trigger] track_or(
                    tracks@,
                    j,
                    default,
                )) is Auto) by {
                    assert(track_or(tracks@, j, default) == track_or(tracks@, y as int, default));
                }
            }
        }
        return t.is_auto();
    }
    let stop = if count <= len - y {
        y + count
    } else {
        len
    };
    let mut j = y;
    while j < stop
        invariant
            y <= j <= stop <= len,
            len == tracks@.len(),
            count > 0,
            stop == if count <= len - y {
                y + count
            } else {
                len as int
            },
            forall|k: int| y <= k < j ==> !((#[trigger] track_or(tracks@, k, default)) is Auto),
        decreases stop - j,
    {
        if tracks[j].is_auto() {
            assert(track_or(tracks@, j as int, default) is Auto);
            return true;
        }
        j += 1;
    }
    if count > len - y {
        let t = tracks[len - 1];
        proof {
            assert(track_or(tracks@, len as int, default) == t);
            if !(t is Auto) {
                assert forall|k: int| y <= k < y + count implies !((#[trigger] track_or(
                    tracks@,
                    k,
                    default,
                )) is Auto) by {
                    if k >= len {
                        assert(track_or(tracks@, k, default) == t);
                    }
                }
            }
        }
        t.is_auto()
    } else {
        false
    }
}

/// Resolves the breakability of a cell at row `y` spanning `rowspan` rows,
/// based on whether it spans an automatically sized row.
fn resolve_breakable(tracks_y: &Vec<Sizing>, gutter_y: &Vec<Sizing>, y: usize, rowspan: usize) -> (r:
    bool)
    requires
        rowspan >= 1,
    ensures
        r == spec_breakable(tracks_y@, gutter_y@, y as int, rowspan as int),
{
    find_auto(tracks_y, y, rowspan, Sizing::Auto) || find_auto(
        gutter_y,
        y,
        rowspan - 1,
        Sizing::Rel(Rel::zero()),
    )
}

/// Appends absent positions until the vector has `new_len` positions.
fn grow<T>(resolved: &mut Vec<Option<Entry<T>>>, new_len: usize)
    requires
        old(resolved)@.len() <= new_len,
    ensures
        final(resolved)@ == old(resolved)@ + Seq::new(
            (new_len - old(resolved)@.len()) as nat,
            |j: int| None::<Entry<T>>,
        ),
{
    while resolved.len() < new_len
        invariant
            old(resolved)@.len() <= resolved@.len() <= new_len,
            resolved@ == old(resolved)@ + Seq::new(
                (resolved@.len() - old(resolved)@.len()) as nat,
                |j: int| None::<Entry<T>>,
            ),
        decreases new_len - resolved@.len(),
    {
        resolved.push(None);
        assert(resolved@ =~= old(resolved)@ + Seq::new(
            (resolved@.len() - old(resolved)@.len()) as nat,
            |j: int| None::<Entry<T>>,
        ));
    }
}


/// Whether position `k` of the rectangle at `idx` comes before row offset `ro`
/// and column offset `co` in row-major order.
pub open spec fn written_before(idx: int, c: int, cs: int, rs: int, ro: int, co: int, k: int) -> bool {
    rect_contains(idx, c, cs, rs, k) && ((k - idx) / c < ro || ((k - idx) / c == ro && (k - idx)
        % c < co))
}

/// The positions of the rectangle at `idx`, with the cell at its top left and
/// the positions merged with it before row offset `ro` and column offset
/// `co`.
pub open spec fn span_progress<T>(
    base: Seq<Option<Entry<T>>>,
    idx: int,
    c: int,
    cs: int,
    rs: int,
    cell: Cell<T>,
    ro: int,
    co: int,
) -> Seq<Option<Entry<T>>> {
    Seq::new(
        base.len(),
        |k: int|
            if k == idx {
                Some(Entry::Cell(cell))
            } else if written_before(idx, c, cs, rs, ro, co, k) {
                Some(Entry::Merged { parent: idx as usize })
            } else {
                base[k]
            },
    )
}

/// The positions of the rectangle at `idx`, with the cell at its top left and
/// every other position merged with it.
pub open spec fn span_filled<T>(
    base: Seq<Option<Entry<T>>>,
    idx: int,
    c: int,
    cs: int,
    rs: int,
    cell: Cell<T>,
) -> Seq<Option<Entry<T>>> {
    Seq::new(
        base.len(),
        |k: int|
            if k == idx {
                Some(Entry::Cell(cell))
            } else if rect_contains(idx, c, cs, rs, k) {
                Some(Entry::Merged { parent: idx as usize })
            } else {
                base[k]
            },
    )
}

/// The row and column offsets of a position in the rectangle determine it.
proof fn lemma_offsets(idx: int, c: int, ro: int, co: int, k: int)
    requires
        c >= 1,
        0 <= co < c,
        ro >= 0,
        k >= idx,
    ensures
        ((k - idx) / c == ro && (k - idx) % c == co) <==> k == idx + c * ro + co,
{
    let d = k - idx;
    lemma_fundamental_div_mod(d, c);
    if k == idx + c * ro + co {
        lemma_fundamental_div_mod_converse(d, c, ro, co);
    }
}

/// Places a resolved cell at position `idx` and merges the rest of its
/// rectangle of `rs` rows and `cs` columns with it; fails if the position or
/// the rectangle is already taken.
fn place_span<T>(
    resolved: &mut Vec<Option<Entry<T>>>,
    idx: usize,
    c: usize,
    cs: usize,
    rs: usize,
    cell: Cell<T>,
    span: Span,
) -> (r: Result<(), GridError>)
    requires
        c >= 1,
        cs >= 1,
        rs >= 1,
        idx % c + cs <= c,
        c * (rs - 1) + idx + (cs - 1) < old(resolved)@.len(),
    ensures
        old(resolved)@[idx as int] is Some ==> r == Err::<(), GridError>(
            GridError::SlotTaken { span, x: idx % c, y: idx / c },
        ),
        old(resolved)@[idx as int] is None ==> match first_overlap(
            old(resolved)@,
            idx as int,
            c as int,
            cs as int,
            rs as int,
            0,
        ) {
            Some((ro, q)) => r == Err::<(), GridError>(
                GridError::SpanOverlap { span, x: (idx % c + q) as usize, y: (idx / c + ro) as usize },
            ),
            None => r is Ok && final(resolved)@ == span_filled(
                old(resolved)@,
                idx as int,
                c as int,
                cs as int,
                rs as int,
                cell,
            ),
        },
{
    let ghost base = resolved@;
    let len = resolved.len();
    if resolved[idx].is_some() {
        return Err(GridError::SlotTaken { span, x: idx % c, y: idx / c });
    }
    let x = idx % c;
    let y = idx / c;
    proof {
        assert(y <= idx) by (nonlinear_arith)
            requires
                c >= 1,
                idx >= 0,
                y == idx / c,
        ;
    }
    resolved.set(idx, Some(Entry::Cell(cell)));
    proof {
        assert(resolved@ =~= span_progress(base, idx as int, c as int, cs as int, rs as int, cell, 0, 0));
    }
    let mut ro: usize = 0;
    while ro < rs
        invariant
            c >= 1,
            cs >= 1,
            rs >= 1,
            x == idx % c,
            y == idx / c,
            y <= idx,
            x + cs <= c,
            c * (rs - 1) + idx + (cs - 1) < len,
            len == base.len(),
            base == old(resolved)@,
            base[idx as int] is None,
            ro <= rs,
            resolved@ == span_progress(base, idx as int, c as int, cs as int, rs as int, cell, ro as int, 0),
            first_overlap(base, idx as int, c as int, cs as int, rs as int, 0) == first_overlap(
                base,
                idx as int,
                c as int,
                cs as int,
                rs as int,
                ro as int,
            ),
        decreases rs - ro,
    {
        proof {
            assert(c * ro <= c * (rs - 1)) by (nonlinear_arith)
                requires
                    c >= 1,
                    ro < rs,
            ;
            assert(ro <= c * ro) by (nonlinear_arith)
                requires
                    c >= 1,
                    ro >= 0,
            ;
        }
        let first_row_index = idx + c * ro;
        let mut co: usize = 0;
        while co < cs
            invariant
                c >= 1,
                cs >= 1,
                x == idx % c,
                y == idx / c,
                y <= idx,
                x + cs <= c,
                ro < rs,
                c * ro <= c * (rs - 1),
                ro <= c * ro,
                first_row_index == idx + c * ro,
                c * (rs - 1) + idx + (cs - 1) < len,
                len == base.len(),
                base == old(resolved)@,
                base[idx as int] is None,
                co <= cs,
                first_overlap(base, idx as int, c as int, cs as int, rs as int, 0) == first_overlap(
                    base,
                    idx as int,
                    c as int,
                    cs as int,
                    rs as int,
                    ro as int,
                ),
                resolved@ == span_progress(
                    base,
                    idx as int,
                    c as int,
                    cs as int,
                    rs as int,
                    cell,
                    ro as int,
                    co as int,
                ),
                first_overlap_in_row(base, idx as int, c as int, cs as int, ro as int, 0)
                    == first_overlap_in_row(
                    base,
                    idx as int,
                    c as int,
                    cs as int,
                    ro as int,
                    co as int,
                ),
            decreases cs - co,
        {
            let pos = first_row_index + co;
            proof {
                lemma_offsets(idx as int, c as int, ro as int, co as int, pos as int);
                assert(rect_contains(idx as int, c as int, cs as int, rs as int, pos as int));
            }
            if ro != 0 || co != 0 {
                proof {
                    assert(pos != idx) by {
                        if pos == idx {
                            assert(c * ro + co == 0);
                        }
                    }
                    assert(!written_before(
                        idx as int,
                        c as int,
                        cs as int,
                        rs as int,
                        ro as int,
                        co as int,
                        pos as int,
                    ));
                    assert(resolved@[pos as int] == base[pos as int]);
                }
                if resolved[pos].is_some() {
                    proof {
                        assert(first_overlap_in_row(
                            base,
                            idx as int,
                            c as int,
                            cs as int,
                            ro as int,
                            co as int,
                        ) == Some(co as int));
                        assert(first_overlap(base, idx as int, c as int, cs as int, rs as int, ro as int)
                            == Some((ro as int, co as int)));
                    }
                    return Err(GridError::SpanOverlap { span, x: x + co, y: y + ro });
                }
                resolved.set(pos, Some(Entry::Merged { parent: idx }));
            }
            proof {
                assert forall|k: int| 0 <= k < len implies #[trigger] resolved@[k] == span_progress(
                    base,
                    idx as int,
                    c as int,
                    cs as int,
                    rs as int,
                    cell,
                    ro as int,
                    co + 1,
                )[k] by {
                    if k >= idx && k != idx {
                        lemma_offsets(idx as int, c as int, ro as int, co as int, k);
                    }
                }
                assert(resolved@ =~= span_progress(
                    base,
                    idx as int,
                    c as int,
                    cs as int,
                    rs as int,
                    cell,
                    ro as int,
                    co + 1,
                ));
            }
            co += 1;
        }
        proof {
            assert(first_overlap_in_row(base, idx as int, c as int, cs as int, ro as int, co as int)
                is None);
            assert(resolved@ =~= span_progress(
                base,
                idx as int,
                c as int,
                cs as int,
                rs as int,
                cell,
                ro + 1,
                0,
            ));
        }
        ro += 1;
    }
    proof {
        assert forall|k: int| 0 <= k < len implies #[trigger] resolved@[k] == span_filled(
            base,
            idx as int,
            c as int,
            cs as int,
            rs as int,
            cell,
        )[k] by {}
        assert(resolved@ =~= span_filled(base, idx as int, c as int, cs as int, rs as int, cell));
    }
    Ok(())
}


/// Once placing a prefix of the lines fails, placing all of them fails the
/// same way.
proof fn lemma_place_lines_err_extends(
    pending: Seq<(Span, Line)>,
    amount: int,
    has_gutter: bool,
    horizontal: bool,
    i: int,
)
    requires
        0 <= i <= pending.len(),
        spec_place_lines(pending.take(i), amount, has_gutter, horizontal) is Err,
    ensures
        spec_place_lines(pending, amount, has_gutter, horizontal) == spec_place_lines(
            pending.take(i),
            amount,
            has_gutter,
            horizontal,
        ),
    decreases pending.len() - i,
{
    if i < pending.len() {
        assert(pending.take(i + 1).drop_last() =~= pending.take(i));
        lemma_place_lines_err_extends(pending, amount, has_gutter, horizontal, i + 1);
    } else {
        assert(pending.take(i) =~= pending);
    }
}

/// The lines of each group.
pub open spec fn lines_view(groups: Seq<Vec<Line>>) -> Seq<Seq<Line>> {
    groups.map_values(|g: Vec<Line>| g@)
}

/// Groups the pending lines by index, checking that each fits into the
/// `amount` tracks.
fn place_lines(pending: &Vec<(Span, Line)>, amount: usize, has_gutter: bool, horizontal: bool) -> (r:
    Result<Vec<Vec<Line>>, GridError>)
    ensures
        match spec_place_lines(pending@, amount as int, has_gutter, horizontal) {
            Ok(groups) => r matches Ok(v) && lines_view(v@) == groups,
            Err(e) => r == Err::<Vec<Vec<Line>>, GridError>(e),
        },
{
    let mut groups: Vec<Vec<Line>> = Vec::new();
    let mut i: usize = 0;
    proof {
        assert(pending@.take(0) =~= Seq::<(Span, Line)>::empty());
        assert(lines_view(groups@) =~= Seq::<Seq<Line>>::empty());
    }
    while i < pending.len()
        invariant
            i <= pending@.len(),
            spec_place_lines(pending@.take(i as int), amount as int, has_gutter, horizontal) == Ok::<
                Seq<Seq<Line>>,
                GridError,
            >(lines_view(groups@)),
        decreases pending@.len() - i,
    {
        proof {
            assert(pending@.take(i + 1).drop_last() =~= pending@.take(i as int));
        }
        let (line_span, line) = pending[i];
        let idx = line.index;
        proof {
            if idx > amount || (idx == amount && line.position == LinePosition::After) || idx
                == usize::MAX {
                lemma_place_lines_err_extends(pending@, amount as int, has_gutter, horizontal, i + 1);
            }
        }
        if idx > amount {
            if horizontal {
                return Err(GridError::InvalidRow { span: line_span, y: idx });
            } else {
                return Err(GridError::InvalidColumn { span: line_span, x: idx });
            }
        }
        if idx == amount && line.position == LinePosition::After {
            if horizontal {
                return Err(GridError::HLineAfterBottom { span: line_span, y: idx });
            } else {
                return Err(GridError::VLineAfterEnd { span: line_span, x: idx });
            }
        }
        if idx == usize::MAX {
            return Err(GridError::PositionTooLarge(line_span));
        }
        let line = if line.position == LinePosition::After && (!has_gutter || idx + 1 == amount) {
            Line { index: idx + 1, position: LinePosition::Before, ..line }
        } else {
            line
        };
        let at = line.index;
        let ghost before = lines_view(groups@);
        if groups.len() <= at {
            while groups.len() <= at
                invariant
                    before.len() <= groups@.len() <= at + 1,
                    lines_view(groups@) == before + Seq::new(
                        (groups@.len() - before.len()) as nat,
                        |j: int| Seq::<Line>::empty(),
                    ),
                decreases at + 1 - groups@.len(),
            {
                let ghost prev = groups@;
                groups.push(Vec::new());
                proof {
                    assert forall|j: int| 0 <= j < groups@.len() implies #[trigger] lines_view(
                        groups@,
                    )[j] == (before + Seq::new(
                        (groups@.len() - before.len()) as nat,
                        |j: int| Seq::<Line>::empty(),
                    ))[j] by {
                        if j < prev.len() {
                            assert(groups@[j] == prev[j]);
                            assert(lines_view(prev)[j] == prev[j]@);
                        }
                    }
                    assert(lines_view(groups@) =~= before + Seq::new(
                        (groups@.len() - before.len()) as nat,
                        |j: int| Seq::<Line>::empty(),
                    ));
                }
            }
        }
        let ghost grown = lines_view(groups@);
        let mut group = groups[at].clone();
        proof {
            assert(group@ =~= groups@[at as int]@);
        }
        group.push(line);
        groups.set(at, group);
        proof {
            assert(grown =~= if before.len() <= at {
                before + Seq::new((at + 1 - before.len()) as nat, |j: int| Seq::<Line>::empty())
            } else {
                before
            });
            assert(lines_view(groups@) =~= push_line(before, line));
        }
        i += 1;
    }
    proof {
        assert(pending@.take(pending@.len() as int) =~= pending@);
    }
    Ok(groups)
}


/// Once placing a prefix of the items fails, placing all of them fails the
/// same way.
proof fn lemma_place_items_err_extends<T: ResolvableCell>(items: Seq<GridItem<T>>, c: int, i: int)
    requires
        0 <= i <= items.len(),
        spec_place_items(items.take(i), c) is Err,
    ensures
        spec_place_items(items, c) == spec_place_items(items.take(i), c),
    decreases items.len() - i,
{
    if i < items.len() {
        assert(items.take(i + 1).drop_last() =~= items.take(i));
        lemma_place_items_err_extends(items, c, i + 1);
    } else {
        assert(items.take(i) =~= items);
    }
}

/// Resolves all cells and lines of a grid: where each cell goes, which
/// positions its span merges, which empty cells fill the gaps, and on which
/// track each line lies; errors on inconsistent input.
pub open spec fn spec_resolve<T: ResolvableCell>(
    tracks_x: Seq<Sizing>,
    gutter_x: Seq<Sizing>,
    gutter_y: Seq<Sizing>,
    items: Seq<GridItem<T>>,
    span: Span,
) -> Result<(Placement, Seq<Seq<Line>>, Seq<Seq<Line>>), GridError> {
    let c = spec_columns(tracks_x);
    let n = items.len() as int;
    let has_gutter = gutter_x.len() > 0 || gutter_y.len() > 0;
    if n + (c - n % c) % c > usize::MAX {
        Err(GridError::TooManyItems(span))
    } else {
        match spec_place_items(items, c) {
            Err(e) => Err(e),
            Ok(p) => match spec_place_lines(p.hlines, p.slots.len() as int / c, has_gutter, true) {
                Err(e) => Err(e),
                Ok(h) => match spec_place_lines(p.vlines, c, has_gutter, false) {
                    Err(e) => Err(e),
                    Ok(v) => Ok((p, h, v)),
                },
            },
        }
    }
}

/// Whether `cell` is what the cell element `t` resolves to at position `k` of
/// a grid with `c` columns, for some properties that `props` gives for that
/// position.
pub open spec fn cell_ok<T: ResolvableCell, F: Fn(usize, usize) -> Result<CellProps, E>, E>(
    t: T,
    k: int,
    c: int,
    cell: Cell<T>,
    props: F,
    tracks_y: Seq<Sizing>,
    gutter_y: Seq<Sizing>,
    rowspan: int,
) -> bool {
    let x = (k % c) as usize;
    let y = (k / c) as usize;
    exists|p: CellProps|
        #[trigger] props.ensures((x, y), Ok::<CellProps, E>(p)) && cell == t.spec_resolve_cell(
            x,
            y,
            p.fill,
            p.align,
            p.inset,
            p.stroke,
            spec_breakable(tracks_y, gutter_y, k / c, rowspan),
        )
}

/// Whether a position under construction holds what its slot says.
pub open spec fn slot_ok<T: ResolvableCell, F: Fn(usize, usize) -> Result<CellProps, E>, E>(
    e: Option<Entry<T>>,
    s: Option<Slot>,
    k: int,
    items: Seq<GridItem<T>>,
    c: int,
    props: F,
    tracks_y: Seq<Sizing>,
    gutter_y: Seq<Sizing>,
) -> bool {
    match s {
        None => e is None,
        Some(Slot::Merged(p)) => e == Some(Entry::<T>::Merged { parent: p as usize }),
        Some(Slot::Parent(i)) => 0 <= i < items.len() && match items[i] {
            GridItem::Cell(t) => match e {
                Some(Entry::Cell(cell)) => cell_ok(
                    t,
                    k,
                    c,
                    cell,
                    props,
                    tracks_y,
                    gutter_y,
                    t.spec_rowspan() as int,
                ),
                _ => false,
            },
            _ => false,
        },
    }
}

/// Whether a final entry holds what its slot says: the resolved cell of its
/// item, a merged position, or a resolved empty cell for a position no cell
/// was placed at.
pub open spec fn entry_ok<T: ResolvableCell, F: Fn(usize, usize) -> Result<CellProps, E>, E>(
    e: Entry<T>,
    s: Option<Slot>,
    k: int,
    items: Seq<GridItem<T>>,
    c: int,
    props: F,
    tracks_y: Seq<Sizing>,
    gutter_y: Seq<Sizing>,
) -> bool {
    match s {
        None => match e {
            Entry::Cell(cell) => cell_ok(T::spec_empty(), k, c, cell, props, tracks_y, gutter_y, 1),
            _ => false,
        },
        Some(_) => slot_ok(Some(e), s, k, items, c, props, tracks_y, gutter_y),
    }
}

/// Whether `props` never fails.
pub open spec fn props_never_fail<F: Fn(usize, usize) -> Result<CellProps, E>, E>(props: F) -> bool {
    forall|x: usize, y: usize, r: Result<CellProps, E>| #[trigger] props.ensures((x, y), r) ==> r is Ok
}

/// Whether `props` may fail with the error `e` at a position in one of the
/// first `c` columns.
pub open spec fn props_fail_with<F: Fn(usize, usize) -> Result<CellProps, E>, E>(
    props: F,
    c: int,
    e: E,
) -> bool {
    exists|x: usize, y: usize| x < c && #[trigger] props.ensures((x, y), Err::<CellProps, E>(e))
}

/// Places the cell of item `i`: positions it, resolves it with the grid-wide
/// properties at its position, and merges its span.
fn place_cell_item<T: ResolvableCell, F: Fn(usize, usize) -> Result<CellProps, E>, E>(
    t: T,
    i: usize,
    resolved_cells: &mut Vec<Option<Entry<T>>>,
    auto_index: &mut usize,
    c: usize,
    tracks_y: &Vec<Sizing>,
    gutter_y: &Vec<Sizing>,
    props: &F,
    Ghost(st): Ghost<Placement>,
    Ghost(its): Ghost<Seq<GridItem<T>>>,
) -> (r: Result<(), ResolveError<E>>)
    requires
        c >= 1,
        forall|x: usize, y: usize| props.requires((x, y)),
        0 <= i < its.len(),
        its[i as int] == GridItem::Cell(t),
        st.auto_index == *old(auto_index),
        st.slots.len() == old(resolved_cells)@.len(),
        forall|k: int|
            0 <= k < st.slots.len() ==> slot_ok(
                #[trigger] old(resolved_cells)@[k],
                st.slots[k],
                k,
                its,
                c as int,
                *props,
                tracks_y@,
                gutter_y@,
            ),
    ensures
        match spec_place_cell(st, i as int, t, c as int) {
            Ok(st2) => (r is Ok || (r is Err && r->Err_0 is Props)) && (r is Ok ==> (
            st2.auto_index == *final(auto_index) && st2.slots.len() == final(resolved_cells)@.len()
                && forall|k: int|
                0 <= k < st2.slots.len() ==> slot_ok(
                    #[trigger] final(resolved_cells)@[k],
                    st2.slots[k],
                    k,
                    its,
                    c as int,
                    *props,
                    tracks_y@,
                    gutter_y@,
                ))),
            Err(e) => r == Err::<(), ResolveError<E>>(ResolveError::Grid(e)) || (r is Err
                && r->Err_0 is Props),
        },
        props_never_fail(*props) ==> !(r is Err && r->Err_0 is Props),
        r matches Err(ResolveError::Props(e)) ==> props_fail_with(*props, c as int, e),
{
    let ghost t0 = t;
    proof {
        assert forall|j: int| #[trigger] occupied(resolved_cells@, j) == occupied(
            st.slots,
            j,
        ) by {
            if 0 <= j < st.slots.len() {
                assert(slot_ok(
                    resolved_cells@[j],
                    st.slots[j],
                    j,
                    its,
                    c as int,
                    props,
                    tracks_y@,
                    gutter_y@,
                ));
            }
        }
        lemma_cell_position_same(
            resolved_cells@,
            st.slots,
            t0.spec_x(),
            t0.spec_y(),
            *auto_index as int,
            c as int,
        );
    }
    let cell_span = t.span();
    let cell_x = t.x();
    let cell_y = t.y();
    let resolved_index = match resolve_cell_position(
        cell_x,
        cell_y,
        &*resolved_cells,
        auto_index,
        c,
    ) {
        Ok(k) => k,
        Err(e) => {
            return Err(ResolveError::Grid(GridError::Position(cell_span, e)));
        },
    };
    let x = resolved_index % c;
    let y = resolved_index / c;
    let colspan = t.colspan();
    let rowspan = t.rowspan();
    if colspan > c - x {
            return Err(ResolveError::Grid(GridError::ColspanExceeds(cell_span)));
    }
    let largest = match c.checked_mul(rowspan - 1) {
        Some(a) => match a.checked_add(resolved_index) {
            Some(b) => match b.checked_add(colspan - 1) {
                Some(l) => l,
                None => {
                    return Err(ResolveError::Grid(GridError::SpanTooLarge(cell_span)));
                },
            },
            None => {
                return Err(ResolveError::Grid(GridError::SpanTooLarge(cell_span)));
            },
        },
        None => {
            proof {
                assert(c * (rowspan - 1) + resolved_index + (colspan - 1) > usize::MAX);
                }
            return Err(ResolveError::Grid(GridError::SpanTooLarge(cell_span)));
        },
    };
    let p = match props(x, y) {
        Ok(p) => p,
        Err(e) => {
            assert(props_fail_with(*props, c as int, e));
            return Err(ResolveError::Props(e));
        },
    };
    let breakable = resolve_breakable(tracks_y, gutter_y, y, rowspan);
    let cell = t.resolve_cell(x, y, &p.fill, p.align, p.inset, p.stroke, breakable);
    proof {
        assert(cell_ok(
            t0,
            resolved_index as int,
            c as int,
            cell,
            *props,
            tracks_y@,
            gutter_y@,
            t0.spec_rowspan() as int,
        ));
    }
    let ghost before_grow = resolved_cells@;
    if largest >= resolved_cells.len() {
        let new_len = match largest.checked_add(1) {
            Some(nl) => match nl.checked_add((c - nl % c) % c) {
                Some(v) => v,
                None => {
                    return Err(ResolveError::Grid(GridError::PositionTooLarge(cell_span)));
                },
            },
            None => {
                return Err(ResolveError::Grid(GridError::PositionTooLarge(cell_span)));
            },
        };
        grow(resolved_cells, new_len);
    }
    let ghost slots1 = if largest >= st.slots.len() {
        st.slots + Seq::new(
            (grown_len(largest as int, c as int) - st.slots.len()) as nat,
            |j: int| None::<Slot>,
        )
    } else {
        st.slots
    };
    let ghost grown = resolved_cells@;
    proof {
        assert(slots1.len() == grown.len());
        assert forall|k: int| 0 <= k < grown.len() implies (#[trigger] grown[k] is Some)
            == (slots1[k] is Some) && slot_ok(
            grown[k],
            slots1[k],
            k,
            its,
            c as int,
            *props,
            tracks_y@,
            gutter_y@,
        ) by {
            if k < before_grow.len() {
                assert(grown[k] == before_grow[k]);
                assert(slot_ok(
                    before_grow[k],
                    st.slots[k],
                    k,
                    its,
                    c as int,
                    props,
                    tracks_y@,
                    gutter_y@,
                ));
            }
        }
        assert forall|k: int| #[trigger] occupied(grown, k) == occupied(slots1, k) by {
            if 0 <= k < grown.len() {
                assert(grown[k] is Some == slots1[k] is Some);
            }
        }
        lemma_first_overlap_same_occupancy(
            grown,
            slots1,
            resolved_index as int,
            c as int,
            colspan as int,
            rowspan as int,
            0,
        );
    }
    match place_span(
        resolved_cells,
        resolved_index,
        c,
        colspan,
        rowspan,
        cell,
        cell_span,
    ) {
        Ok(()) => {},
        Err(e) => {
            return Err(ResolveError::Grid(e));
        },
    }
    proof {
        let new_slots = fill_span(
            slots1,
            resolved_index as int,
            c as int,
            colspan as int,
            rowspan as int,
            i as int,
        );
        assert forall|k: int| 0 <= k < new_slots.len() implies slot_ok(
            #[trigger] resolved_cells@[k],
            new_slots[k],
            k,
            its,
            c as int,
            *props,
            tracks_y@,
            gutter_y@,
        ) by {}
    }
    Ok(())
}

/// Turns the positions into the final entries, resolving an empty cell for
/// each position no cell was placed at.
fn finish_entries<T: ResolvableCell, F: Fn(usize, usize) -> Result<CellProps, E>, E>(
    resolved_cells: Vec<Option<Entry<T>>>,
    c: usize,
    tracks_y: &Vec<Sizing>,
    gutter_y: &Vec<Sizing>,
    props: &F,
    Ghost(st): Ghost<Placement>,
    Ghost(its): Ghost<Seq<GridItem<T>>>,
) -> (r: Result<Vec<Entry<T>>, E>)
    requires
        c >= 1,
        forall|x: usize, y: usize| props.requires((x, y)),
        st.slots.len() == resolved_cells@.len(),
        forall|k: int|
            0 <= k < st.slots.len() ==> slot_ok(
                #[trigger] resolved_cells@[k],
                st.slots[k],
                k,
                its,
                c as int,
                *props,
                tracks_y@,
                gutter_y@,
            ),
    ensures
        r matches Ok(entries) ==> entries@.len() == st.slots.len() && forall|k: int|
            0 <= k < st.slots.len() ==> entry_ok(
                #[trigger] entries@[k],
                st.slots[k],
                k,
                its,
                c as int,
                *props,
                tracks_y@,
                gutter_y@,
            ),
        props_never_fail(*props) ==> r is Ok,
        r matches Err(e) ==> props_fail_with(*props, c as int, e),
{
    let ghost cells0 = resolved_cells@;
    let len = resolved_cells.len();
    let mut remaining = resolved_cells;
    let mut rev: Vec<Option<Entry<T>>> = Vec::new();
    while remaining.len() > 0
        invariant
            remaining@.len() <= len,
            len == cells0.len(),
            remaining@ == cells0.take(remaining@.len() as int),
            rev@ == cells0.subrange(remaining@.len() as int, len as int).reverse(),
        decreases remaining@.len(),
    {
        let slot = remaining.pop().unwrap();
        rev.push(slot);
        proof {
            assert(slot == cells0[remaining@.len() as int]);
            assert(remaining@ =~= cells0.take(remaining@.len() as int));
            assert(rev@ =~= cells0.subrange(remaining@.len() as int, len as int).reverse());
        }
    }
    let mut entries: Vec<Entry<T>> = Vec::new();
    let mut k: usize = 0;
    while k < len
        invariant
            c >= 1,
            forall|x: usize, y: usize| props.requires((x, y)),
            len == cells0.len(),
            st.slots.len() == len,
            k <= len,
            entries@.len() == k,
            rev@ == cells0.subrange(k as int, len as int).reverse(),
            forall|j: int|
                0 <= j < st.slots.len() ==> slot_ok(
                    #[trigger] cells0[j],
                    st.slots[j],
                    j,
                    its,
                    c as int,
                    *props,
                    tracks_y@,
                    gutter_y@,
                ),
            forall|j: int|
                0 <= j < k ==> entry_ok(
                    #[trigger] entries@[j],
                    st.slots[j],
                    j,
                    its,
                    c as int,
                    *props,
                    tracks_y@,
                    gutter_y@,
                ),
        decreases len - k,
    {
        let slot = rev.pop().unwrap();
        proof {
            assert(slot == cells0[k as int]);
            assert(rev@ =~= cells0.subrange(k + 1, len as int).reverse());
            assert(slot_ok(
                cells0[k as int],
                st.slots[k as int],
                k as int,
                its,
                c as int,
                *props,
                tracks_y@,
                gutter_y@,
            ));
        }
        match slot {
            Some(e) => {
                entries.push(e);
            },
            None => {
                let x = k % c;
                let y = k / c;
                let p = match props(x, y) {
                    Ok(p) => p,
                    Err(e) => {
                        assert(props_fail_with(*props, c as int, e));
                        return Err(e);
                    },
                };
                let breakable = resolve_breakable(tracks_y, gutter_y, y, 1);
                let cell = T::empty().resolve_cell(x, y, &p.fill, p.align, p.inset, p.stroke, breakable);
                proof {
                    assert(cell_ok(
                        T::spec_empty(),
                        k as int,
                        c as int,
                        cell,
                        *props,
                        tracks_y@,
                        gutter_y@,
                        1,
                    ));
                }
                entries.push(Entry::Cell(cell));
            },
        }
        k += 1;
    }
    Ok(entries)
}

impl<T: ResolvableCell> CellGrid<T> {
    /// Whether the grid is the one that the resolution `p`, `h`, `v` of the
    /// given items describes.
    pub open spec fn matches_resolution<F: Fn(usize, usize) -> Result<CellProps, E>, E>(
        &self,
        p: Placement,
        h: Seq<Seq<Line>>,
        v: Seq<Seq<Line>>,
        items: Seq<GridItem<T>>,
        tracks: Axes<Seq<Sizing>>,
        gutter: Axes<Seq<Sizing>>,
        props: F,
    ) -> bool {
        let c = spec_columns(tracks.x);
        &&& self.entries@.len() == p.slots.len()
        &&& forall|k: int|
            0 <= k < p.slots.len() ==> entry_ok(
                #[trigger] self.entries@[k],
                p.slots[k],
                k,
                items,
                c,
                props,
                tracks.y,
                gutter.y,
            )
        &&& lines_view(self.hlines@) == h
        &&& lines_view(self.vlines@) == v
        &&& self.has_gutter == (gutter.x.len() > 0 || gutter.y.len() > 0)
        &&& self.cols@ == spec_tracks(tracks.x, gutter.x, c, self.has_gutter)
        &&& self.rows@ == spec_tracks(
            tracks.y,
            gutter.y,
            spec_row_count(tracks.y, c, p.slots.len() as int),
            self.has_gutter,
        )
    }

    /// Resolves and positions all cells and lines of a grid.
    ///
    /// Cells are placed in order: a cell with a requested column and row goes
    /// exactly there, a cell with only one of them goes to the first free
    /// position in that column or row, and any other cell goes to the first
    /// free position after the previous automatically positioned one. Each
    /// cell's span is merged with it; positions left free become empty cells.
    /// `props` gives the grid-wide fill, alignment, inset and stroke at a
    /// position.
    #[verifier::rlimit(40)]
    pub fn resolve<F, E>(
        tracks: Axes<&Vec<Sizing>>,
        gutter: Axes<&Vec<Sizing>>,
        items: Vec<GridItem<T>>,
        props: F,
        span: Span,
    ) -> (r: Result<Self, ResolveError<E>>) where F: Fn(usize, usize) -> Result<CellProps, E>
        requires
            forall|x: usize, y: usize| props.requires((x, y)),
        ensures
            r matches Ok(g) ==> spec_resolve(tracks.x@, gutter.x@, gutter.y@, items@, span) matches Ok(
                (p, h, v),
            ) && g.matches_resolution(
                p,
                h,
                v,
                items@,
                Axes { x: tracks.x@, y: tracks.y@ },
                Axes { x: gutter.x@, y: gutter.y@ },
                props,
            ),
            r matches Err(ResolveError::Grid(e)) ==> spec_resolve(
                tracks.x@,
                gutter.x@,
                gutter.y@,
                items@,
                span,
            ) == Err::<(Placement, Seq<Seq<Line>>, Seq<Seq<Line>>), GridError>(e),
            props_never_fail(props) ==> !(r is Err && r->Err_0 is Props),
            r matches Err(ResolveError::Props(e)) ==> props_fail_with(
                props,
                spec_columns(tracks.x@),
                e,
            ),
    {
        let ghost its = items@;
        let c = if tracks.x.len() >= 1 {
            tracks.x.len()
        } else {
            1
        };
        let has_gutter = gutter.x.len() > 0 || gutter.y.len() > 0;
        let n = items.len();
        let pad = (c - n % c) % c;
        if n.checked_add(pad).is_none() {
            return Err(ResolveError::Grid(GridError::TooManyItems(span)));
        }
        assert(its.len() as int + (c as int - its.len() as int % c as int) % c as int <= usize::MAX);
        // Drain the items in order.

        let mut remaining = items;
        let mut rev: Vec<GridItem<T>> = Vec::new();
        while remaining.len() > 0
            invariant
                remaining@.len() <= its.len(),
                remaining@ == its.take(remaining@.len() as int),
                rev@ == its.subrange(remaining@.len() as int, its.len() as int).reverse(),
            decreases remaining@.len(),
        {
            let item = remaining.pop().unwrap();
            rev.push(item);
            proof {
                assert(item == its[remaining@.len() as int]);
                assert(remaining@ =~= its.take(remaining@.len() as int));
                assert(rev@ =~= its.subrange(remaining@.len() as int, its.len() as int).reverse());
            }
        }
        let mut resolved_cells: Vec<Option<Entry<T>>> = Vec::new();
        let mut pending_hlines: Vec<(Span, Line)> = Vec::new();
        let mut pending_vlines: Vec<(Span, Line)> = Vec::new();
        let mut auto_index: usize = 0;
        let ghost mut st = Placement {
            slots: seq![],
            auto_index: 0,
            hlines: seq![],
            vlines: seq![],
        };
        let mut i: usize = 0;
        proof {
            assert(its.take(0) =~= Seq::<GridItem<T>>::empty());
        }
        while rev.len() > 0
            invariant
                its == items@,
                its.len() as int + (c as int - its.len() as int % c as int) % c as int <= usize::MAX,
                i + rev@.len() == its.len(),
                rev@ == its.subrange(i as int, its.len() as int).reverse(),
                c >= 1,
                c == spec_columns(tracks.x@),
                forall|x: usize, y: usize| props.requires((x, y)),
                spec_place_items(its.take(i as int), c as int) == Ok::<Placement, GridError>(st),
                st.auto_index == auto_index,
                st.hlines == pending_hlines@,
                st.vlines == pending_vlines@,
                st.slots.len() == resolved_cells@.len(),
                forall|k: int|
                    0 <= k < st.slots.len() ==> slot_ok(
                        #[trigger] resolved_cells@[k],
                        st.slots[k],
                        k,
                        its,
                        c as int,
                        props,
                        tracks.y@,
                        gutter.y@,
                    ),
            decreases rev@.len(),
        {
            let item = rev.pop().unwrap();
            proof {
                assert(item == its[i as int]);
                assert(its.take(i + 1).drop_last() =~= its.take(i as int));
                assert(its.take(i + 1).last() == its[i as int]);
                assert(rev@ =~= its.subrange(i + 1, its.len() as int).reverse());
            }
            match item {
                GridItem::HLine { y, start, end, stroke, span: line_span, position } => {
                    let yy = match y {
                        Smart::Custom(v) => v,
                        Smart::Auto => match auto_index.checked_sub(1) {
                            Some(last) => last / c + 1,
                            None => 0,
                        },
                    };
                    let ends_before = match end {
                        Some(e) => e < start,
                        None => false,
                    };
                    if ends_before {
                        proof {
                            assert(spec_place_item(st, i as int, its[i as int], c as int) == Err::<Placement, GridError>(GridError::LineEndsBeforeStart(line_span)));
                            assert(spec_place_items(its.take(i + 1), c as int) == Err::<Placement, GridError>(GridError::LineEndsBeforeStart(line_span)));
                            lemma_place_items_err_extends(its, c as int, i + 1);
                            assert(spec_place_items(its, c as int) == Err::<Placement, GridError>(GridError::LineEndsBeforeStart(line_span)));
                        }
                        return Err(ResolveError::Grid(GridError::LineEndsBeforeStart(line_span)));
                    }
                    pending_hlines.push(
                        (line_span, Line { index: yy, start, end, stroke, position }),
                    );
                    proof {
                        st = Placement { hlines: st.hlines.push((line_span, Line { index: yy, start, end, stroke, position })), ..st };
                    }
                },
                GridItem::VLine { x, start, end, stroke, span: line_span, position } => {
                    let xx = match x {
                        Smart::Custom(v) => v,
                        Smart::Auto => match auto_index.checked_sub(1) {
                            Some(last) => last % c + 1,
                            None => 0,
                        },
                    };
                    let ends_before = match end {
                        Some(e) => e < start,
                        None => false,
                    };
                    if ends_before {
                        proof {
                            lemma_place_items_err_extends(its, c as int, i + 1);
                        }
                        return Err(ResolveError::Grid(GridError::LineEndsBeforeStart(line_span)));
                    }
                    pending_vlines.push(
                        (line_span, Line { index: xx, start, end, stroke, position }),
                    );
                    proof {
                        st = Placement { vlines: st.vlines.push((line_span, Line { index: xx, start, end, stroke, position })), ..st };
                    }
                },
                GridItem::Cell(t) => {
                    let res = place_cell_item(
                        t,
                        i,
                        &mut resolved_cells,
                        &mut auto_index,
                        c,
                        tracks.y,
                        gutter.y,
                        &props,
                        Ghost(st),
                        Ghost(its),
                    );
                    match res {
                        Ok(()) => {},
                        Err(e) => {
                            proof {
                                if e is Grid {
                                    lemma_place_items_err_extends(its, c as int, i + 1);
                                }
                            }
                            return Err(e);
                        },
                    }
                    proof {
                        st = spec_place_cell(st, i as int, its[i as int]->Cell_0, c as int)->Ok_0;
                    }
                },
            }
            i += 1;
        }
        proof {
            assert(its.take(its.len() as int) =~= its);
        }
        let len = resolved_cells.len();
        let entries = match finish_entries(
            resolved_cells,
            c,
            tracks.y,
            gutter.y,
            &props,
            Ghost(st),
            Ghost(its),
        ) {
            Ok(entries) => entries,
            Err(e) => {
                return Err(ResolveError::Props(e));
            },
        };
        let row_amount = len / c;
        let hlines = match place_lines(&pending_hlines, row_amount, has_gutter, true) {
            Ok(h) => h,
            Err(e) => {
                return Err(ResolveError::Grid(e));
            },
        };
        let vlines = match place_lines(&pending_vlines, c, has_gutter, false) {
            Ok(v) => v,
            Err(e) => {
                return Err(ResolveError::Grid(e));
            },
        };
        Ok(CellGrid::new_internal(tracks, gutter, vlines, hlines, entries))
    }
}

/// The first free position from `k` depends only on occupancy.
proof fn lemma_first_free_from_same<A, B>(a: Seq<Option<A>>, b: Seq<Option<B>>, k: int)
    requires
        a.len() == b.len(),
        forall|j: int| #[trigger] occupied(a, j) == occupied(b, j),
    ensures
        first_free_from(a, k) == first_free_from(b, k),
    decreases a.len() - k,
{
    assert(occupied(a, k) == occupied(b, k));
    if occupied(a, k) {
        lemma_first_free_from_same(a, b, k + 1);
    }
}

/// The first free row of a column depends only on occupancy.
proof fn lemma_first_free_in_column_same<A, B>(
    a: Seq<Option<A>>,
    b: Seq<Option<B>>,
    x: int,
    c: int,
    r: int,
)
    requires
        a.len() == b.len(),
        forall|j: int| #[trigger] occupied(a, j) == occupied(b, j),
    ensures
        first_free_in_column(a, x, c, r) == first_free_in_column(b, x, c, r),
    decreases a.len() - r,
{
    assert(occupied(a, r * c + x) == occupied(b, r * c + x));
    if occupied(a, r * c + x) && 0 <= r < a.len() {
        lemma_first_free_in_column_same(a, b, x, c, r + 1);
    }
}

/// The first free position of a range depends only on occupancy.
proof fn lemma_first_free_in_range_same<A, B>(a: Seq<Option<A>>, b: Seq<Option<B>>, k: int, last: int)
    requires
        forall|j: int| #[trigger] occupied(a, j) == occupied(b, j),
    ensures
        first_free_in_range(a, k, last) == first_free_in_range(b, k, last),
    decreases last - k,
{
    assert(occupied(a, k) == occupied(b, k));
    if k < last {
        lemma_first_free_in_range_same(a, b, k + 1, last);
    }
}

/// Where a cell goes depends only on which positions are occupied.
proof fn lemma_cell_position_same<A, B>(
    a: Seq<Option<A>>,
    b: Seq<Option<B>>,
    cell_x: Smart<usize>,
    cell_y: Smart<usize>,
    auto_index: int,
    c: int,
)
    requires
        a.len() == b.len(),
        forall|j: int| #[trigger] occupied(a, j) == occupied(b, j),
    ensures
        spec_cell_position(cell_x, cell_y, a, auto_index, c) == spec_cell_position(
            cell_x,
            cell_y,
            b,
            auto_index,
            c,
        ),
{
    lemma_first_free_from_same(a, b, auto_index);
    match cell_x {
        Smart::Custom(x) => {
            lemma_first_free_in_column_same(a, b, x as int, c, 0);
        },
        Smart::Auto => {},
    }
    match cell_y {
        Smart::Custom(y) => {
            lemma_first_free_in_range_same(a, b, y * c, y * c + c);
        },
        Smart::Auto => {},
    }
}

/// Two position sequences with the same occupancy have the same first
/// overlap in a row of a rectangle.
proof fn lemma_first_overlap_in_row_same<A, B>(
    a: Seq<Option<A>>,
    b: Seq<Option<B>>,
    idx: int,
    c: int,
    cs: int,
    r: int,
    q: int,
)
    requires
        forall|k: int| #[trigger] occupied(a, k) == occupied(b, k),
    ensures
        first_overlap_in_row(a, idx, c, cs, r, q) == first_overlap_in_row(b, idx, c, cs, r, q),
    decreases cs - q,
{
    if q < cs {
        assert(occupied(a, idx + c * r + q) == occupied(b, idx + c * r + q));
        lemma_first_overlap_in_row_same(a, b, idx, c, cs, r, q + 1);
    }
}

/// Two position sequences with the same occupancy have the same first
/// overlap in a rectangle.
proof fn lemma_first_overlap_same_occupancy<A, B>(
    a: Seq<Option<A>>,
    b: Seq<Option<B>>,
    idx: int,
    c: int,
    cs: int,
    rs: int,
    r: int,
)
    requires
        forall|k: int| #[trigger] occupied(a, k) == occupied(b, k),
    ensures
        first_overlap(a, idx, c, cs, rs, r) == first_overlap(b, idx, c, cs, rs, r),
    decreases rs - r,
{
    if r < rs {
        lemma_first_overlap_in_row_same(a, b, idx, c, cs, r, 0);
        lemma_first_overlap_same_occupancy(a, b, idx, c, cs, rs, r + 1);
    }
}

/// Turns extents into the offsets before, in between, and after them; for
/// example, [10, 5] becomes [0, 10, 15].
pub fn points(extents: &Vec<Abs>) -> (r: Vec<Abs>)
    requires
        forall|i: int|
            0 <= i <= extents@.len() ==> in_range(sum(#[trigger] raw_sizes(extents@).take(i))),
    ensures
        r@.len() == extents@.len() + 1,
        forall|i: int|
            0 <= i <= extents@.len() ==> (#[trigger] r@[i]).0 == sum(raw_sizes(extents@).take(i)),
{
    let ghost raw = raw_sizes(extents@);
    let mut out: Vec<Abs> = Vec::new();
    let mut offset: i64 = 0;
    proof {
        assert(raw.take(0) =~= Seq::<int>::empty());
    }
    out.push(Abs(0));
    let mut i: usize = 0;
    while i < extents.len()
        invariant
            i <= extents@.len(),
            raw == raw_sizes(extents@),
            forall|k: int| 0 <= k <= extents@.len() ==> in_range(sum(#[trigger] raw.take(k))),
            out@.len() == i + 1,
            offset == sum(raw.take(i as int)),
            forall|k: int| 0 <= k <= i ==> (#[trigger] out@[k]).0 == sum(raw.take(k)),
        decreases extents@.len() - i,
    {
        proof {
            assert(raw.take(i + 1).drop_last() =~= raw.take(i as int));
            assert(in_range(sum(raw.take(i + 1))));
        }
        offset = offset + extents[i].0;
        out.push(Abs(offset));
        i += 1;
    }
    out
}


impl<T> From<T> for Cell<T> {
    /// A simple cell of the body: no fill, spanning one column and one row,
    /// without strokes, and breakable.
    fn from(body: T) -> (r: Self) {
        Cell {
            body,
            fill: None,
            colspan: 1,
            rowspan: 1,
            stroke: Sides { left: None, top: None, right: None, bottom: None },
            stroke_overridden: Sides { left: false, top: false, right: false, bottom: false },
            breakable: true,
        }
    }
}

impl<T> vstd::std_specs::convert::FromSpecImpl<T> for Cell<T> {
    open spec fn obeys_from_spec() -> bool {
        true
    }

    open spec fn from_spec(body: T) -> Self {
        Cell {
            body,
            fill: None,
            colspan: 1,
            rowspan: 1,
            stroke: Sides { left: None, top: None, right: None, bottom: None },
            stroke_overridden: Sides { left: false, top: false, right: false, bottom: false },
            breakable: true,
        }
    }
}

} // verus!
