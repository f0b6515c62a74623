//! The cell fills of a laid-out grid.

use vstd::prelude::*;

use crate::content::Span;
use crate::frame::{Frame, FrameItem, FrameView};
use crate::geom::{in_range, Abs, Axes, Point};
use crate::grid::layout::{CellGrid, Entry, RowPiece};
use crate::grid::lines::{lemma_sum_prefix, sum};
use crate::grid::rowspans::{raw_sizes, spec_offsets_fit, spec_visual_column, spec_visual_widths};
use crate::visualize::Geometry;

verus! {

/// The parent position of the cell at column `x` and row `y`, as far as the
/// cell starts there or before: with gutter, a gutter position takes the
/// cell of the content position after it, if that cell started before.
pub open spec fn spec_effective_parent<T>(grid: &CellGrid<T>, x: int, y: int) -> Option<(int, int)> {
    if grid.has_gutter {
        match grid.spec_parent_cell_position(x + x % 2, y + y % 2) {
            Some((px, py)) => if px <= x && py <= y {
                Some((px, py))
            } else {
                None
            },
            None => None,
        }
    } else {
        grid.spec_parent_cell_position(x, y)
    }
}

/// The first of the rows from index `j` on that lies at or below row `y`
/// of the grid.
pub open spec fn first_row_from(rows: Seq<RowPiece>, y: int, j: int) -> Option<int>
    decreases rows.len() - j,
{
    if j < 0 || j >= rows.len() {
        None
    } else if rows[j].y >= y {
        Some(j)
    } else {
        first_row_from(rows, y, j + 1)
    }
}

/// The cell whose fill starts at column `x` in the row with index `r` of a
/// region: a cell starts there at its first column, and at its parent row
/// or, where that row is not in the region, at the region's first row that
/// the cell spans.
pub open spec fn spec_fill_parent<T>(grid: &CellGrid<T>, rows: Seq<RowPiece>, x: int, r: int) -> Option<
    (int, int),
> {
    let y = rows[r].y as int;
    match spec_effective_parent(grid, x, y) {
        Some((px, py)) => if px == x && (py == y || spec_first_row_is(rows, py, y)) {
            Some((px, py))
        } else {
            None
        },
        None => None,
    }
}

/// Whether the first of the rows of a region at or below grid row `py` is
/// grid row `y`.
pub open spec fn spec_first_row_is(rows: Seq<RowPiece>, py: int, y: int) -> bool {
    match first_row_from(rows, py, 0) {
        Some(j) => rows[j].y == y,
        None => false,
    }
}

/// The number of tracks, gutter included, that `span` content tracks take.
pub open spec fn spec_effective_span(has_gutter: bool, span: int) -> int {
    if has_gutter {
        2 * span - 1
    } else {
        span
    }
}

/// The total height of the rows among the first `j` rows of a region that
/// lie in the grid rows `lo..hi`.
pub open spec fn spec_span_height(rows: Seq<RowPiece>, lo: int, hi: int, j: int) -> int
    decreases j,
{
    if j <= 0 {
        0
    } else {
        spec_span_height(rows, lo, hi, j - 1) + if lo <= rows[j - 1].y < hi {
            rows[j - 1].height.0 as int
        } else {
            0
        }
    }
}

/// The heights of the rows of a region.
pub open spec fn row_heights(rows: Seq<RowPiece>) -> Seq<int> {
    rows.map_values(|r: RowPiece| r.height.0 as int)
}

/// The total width of the columns `x..x + span`, as far as there are such
/// columns.
pub open spec fn spec_span_width(rcols: Seq<Abs>, x: int, span: int) -> int {
    let end = if x + span <= rcols.len() {
        x + span
    } else {
        rcols.len() as int
    };
    sum(raw_sizes(rcols).take(end)) - sum(raw_sizes(rcols).take(x))
}

/// The fill item of the cell whose fill starts at column `x` in the row with
/// index `r` of a region, if that cell has a fill: a rectangle as wide as
/// the columns the cell spans and as high as the rows of the region it
/// spans (the row's own height for a cell of one row), at the horizontal
/// offset `dx` of the column and the vertical offset `dy` of the row; in
/// right-to-left layout the rectangle ends at the column's right edge.
pub open spec fn spec_fill_item<T>(
    grid: &CellGrid<T>,
    rcols: Seq<Abs>,
    rows: Seq<RowPiece>,
    is_rtl: bool,
    x: int,
    r: int,
    dx: int,
    dy: int,
    span: Span,
) -> Option<(Point, FrameItem)> {
    match spec_fill_parent(grid, rows, x, r) {
        Some((px, py)) => if py < grid.rows@.len() {
            match grid.spec_entry(px, py) {
                Some(Entry::Cell(c)) => match c.fill {
                    Some(fill) => {
                        let rs = spec_effective_span(grid.has_gutter, c.rowspan as int);
                        let h = if rs == 1 {
                            rows[r].height.0 as int
                        } else {
                            spec_span_height(rows, py, py + rs, rows.len() as int)
                        };
                        let w = spec_span_width(
                            rcols,
                            x,
                            spec_effective_span(grid.has_gutter, c.colspan as int),
                        );
                        let offset = if is_rtl {
                            rcols[x].0 - w
                        } else {
                            0
                        };
                        Some(
                            (
                                Point { x: Abs((dx + offset) as i64), y: Abs(dy as i64) },
                                FrameItem::Shape(
                                    Geometry::Rect(Axes { x: Abs(w as i64), y: Abs(h as i64) }).spec_filled(
                                        fill,
                                    ),
                                    span,
                                ),
                            ),
                        )
                    },
                    None => None,
                },
                _ => None,
            }
        } else {
            None
        },
        None => None,
    }
}

/// The fill items of column `x`, at horizontal offset `dx`, for the first
/// `r` rows of a region.
pub open spec fn spec_column_fills<T>(
    grid: &CellGrid<T>,
    rcols: Seq<Abs>,
    rows: Seq<RowPiece>,
    is_rtl: bool,
    x: int,
    dx: int,
    r: int,
    span: Span,
) -> Seq<(Point, FrameItem)>
    decreases r,
{
    if r <= 0 {
        Seq::empty()
    } else {
        let before = spec_column_fills(grid, rcols, rows, is_rtl, x, dx, r - 1, span);
        let dy = sum(row_heights(rows).take(r - 1));
        match spec_fill_item(grid, rcols, rows, is_rtl, x, r - 1, dx, dy, span) {
            Some(item) => before.push(item),
            None => before,
        }
    }
}

/// The fill items of the first `k` columns in visual order (from the right
/// in right-to-left layout), each column's from the top down.
pub open spec fn spec_fills<T>(
    grid: &CellGrid<T>,
    rcols: Seq<Abs>,
    rows: Seq<RowPiece>,
    is_rtl: bool,
    k: int,
    span: Span,
) -> Seq<(Point, FrameItem)>
    decreases k,
{
    if k <= 0 {
        Seq::empty()
    } else {
        let x = spec_visual_column(rcols.len() as int, is_rtl, k - 1);
        let dx = sum(raw_sizes(spec_visual_widths(rcols, is_rtl)).take(k - 1));
        spec_fills(grid, rcols, rows, is_rtl, k - 1, span) + spec_column_fills(
            grid,
            rcols,
            rows,
            is_rtl,
            x,
            dx,
            rows.len() as int,
            span,
        )
    }
}

/// Whether rendering the fills stays in the range of lengths: columns and
/// rows of non-negative sizes, whose totals are lengths, and spans that
/// count with the gutter.
pub open spec fn spec_fills_fit<T>(grid: &CellGrid<T>, rcols: Seq<Abs>, rows: Seq<RowPiece>, is_rtl: bool) -> bool {
    &&& grid.wf()
    &&& rcols.len() == grid.cols@.len()
    &&& forall|i: int| 0 <= i < rcols.len() ==> (#[trigger] rcols[i]).0 >= 0
    &&& forall|j: int| 0 <= j < rows.len() ==> (#[trigger] rows[j]).height.0 >= 0
    &&& forall|j: int| 0 <= j < rows.len() ==> (#[trigger] rows[j]).y < grid.rows@.len()
    &&& in_range(sum(raw_sizes(rcols)))
    &&& in_range(sum(row_heights(rows)))
    &&& spec_offsets_fit(rcols, is_rtl)
    &&& forall|i: int|
        0 <= i < grid.entries@.len() ==> (#[trigger] grid.entries@[i] matches Entry::Cell(c) ==> {
            &&& 1 <= c.rowspan && 2 * c.rowspan + grid.rows@.len() <= usize::MAX
            &&& 1 <= c.colspan && 2 * c.colspan <= usize::MAX
        })
}

proof fn lemma_prefix_le(sizes: Seq<int>, i: int, j: int)
    requires
        0 <= i <= j <= sizes.len(),
        forall|k: int| 0 <= k < sizes.len() ==> sizes[k] >= 0,
    ensures
        0 <= sum(sizes.take(i)) <= sum(sizes.take(j)) <= sum(sizes),
{
    let t = sizes.take(j);
    lemma_sum_prefix(t, i);
    assert(t.take(i) =~= sizes.take(i));
    lemma_sum_prefix(sizes, j);
}

proof fn lemma_span_height_le(rows: Seq<RowPiece>, lo: int, hi: int, j: int)
    requires
        0 <= j <= rows.len(),
        forall|k: int| 0 <= k < rows.len() ==> (#[trigger] rows[k]).height.0 >= 0,
    ensures
        0 <= spec_span_height(rows, lo, hi, j) <= sum(row_heights(rows).take(j)),
    decreases j,
{
    if j > 0 {
        lemma_span_height_le(rows, lo, hi, j - 1);
        assert(row_heights(rows).take(j).drop_last() =~= row_heights(rows).take(j - 1));
    }
}

/// The total height of the rows of a region that lie in the grid rows
/// `lo..hi`.
fn span_height(rows: &Vec<RowPiece>, lo: usize, hi: usize) -> (r: Abs)
    requires
        forall|k: int| 0 <= k < rows@.len() ==> (#[trigger] rows@[k]).height.0 >= 0,
        in_range(sum(row_heights(rows@))),
    ensures
        r.0 == spec_span_height(rows@, lo as int, hi as int, rows@.len() as int),
{
    let mut total: i64 = 0;
    let mut j: usize = 0;
    while j < rows.len()
        invariant
            j <= rows@.len(),
            forall|k: int| 0 <= k < rows@.len() ==> (#[trigger] rows@[k]).height.0 >= 0,
            in_range(sum(row_heights(rows@))),
            total == spec_span_height(rows@, lo as int, hi as int, j as int),
        decreases rows@.len() - j,
    {
        proof {
            lemma_span_height_le(rows@, lo as int, hi as int, j + 1);
            lemma_prefix_le(row_heights(rows@), j + 1, rows@.len() as int);
        }
        if lo <= rows[j].y && rows[j].y < hi {
            total = total + rows[j].height.0;
        }
        j += 1;
    }
    Abs(total)
}

/// The total width of the columns `x..x + span`, as far as there are such
/// columns.
fn span_width(rcols: &Vec<Abs>, x: usize, span: usize) -> (r: Abs)
    requires
        x < rcols@.len(),
        forall|i: int| 0 <= i < rcols@.len() ==> (#[trigger] rcols@[i]).0 >= 0,
        in_range(sum(raw_sizes(rcols@))),
    ensures
        r.0 == spec_span_width(rcols@, x as int, span as int),
        0 <= r.0 <= sum(raw_sizes(rcols@)),
        r.0 >= rcols@[x as int].0 || span == 0,
{
    let ghost raw = raw_sizes(rcols@);
    let n = rcols.len();
    let end: usize = if span <= n - x {
        x + span
    } else {
        n
    };
    let mut total: i64 = 0;
    let mut i: usize = x;
    proof {
        assert(forall|k: int| 0 <= k < raw.len() ==> raw[k] == rcols@[k].0);
        lemma_prefix_le(raw, x as int, end as int);
    }
    while i < end
        invariant
            x <= i <= end <= n == rcols@.len(),
            raw == raw_sizes(rcols@),
            forall|k: int| 0 <= k < raw.len() ==> raw[k] >= 0,
            in_range(sum(raw)),
            total == sum(raw.take(i as int)) - sum(raw.take(x as int)),
        decreases end - i,
    {
        proof {
            lemma_prefix_le(raw, x as int, i as int);
            lemma_prefix_le(raw, i + 1, n as int);
            assert(raw.take(i + 1).drop_last() =~= raw.take(i as int));
        }
        total = total + rcols[i].0;
        i += 1;
    }
    proof {
        if span > 0 {
            lemma_prefix_le(raw, x + 1, end as int);
            assert(raw.take(x + 1).drop_last() =~= raw.take(x as int));
        }
    }
    Abs(total)
}


proof fn lemma_first_row_from(rows: Seq<RowPiece>, y: int, j: int)
    ensures
        first_row_from(rows, y, j) matches Some(k) ==> j <= k < rows.len() && rows[k].y >= y,
    decreases rows.len() - j,
{
    if 0 <= j < rows.len() && rows[j].y < y {
        lemma_first_row_from(rows, y, j + 1);
    }
}

/// The first of the rows of a region that lies at or below row `y` of the
/// grid.
fn first_row_at_or_below(rows: &Vec<RowPiece>, y: usize) -> (r: Option<usize>)
    ensures
        match r {
            Some(j) => first_row_from(rows@, y as int, 0) == Some(j as int),
            None => first_row_from(rows@, y as int, 0) is None,
        },
{
    let mut j: usize = 0;
    while j < rows.len()
        invariant
            j <= rows@.len(),
            first_row_from(rows@, y as int, 0) == first_row_from(rows@, y as int, j as int),
        decreases rows@.len() - j,
    {
        if rows[j].y >= y {
            return Some(j);
        }
        j += 1;
    }
    None
}

/// The fill item of the cell whose fill starts at column `x` in the row
/// with index `r` of a region, at offsets `dx` and `dy`.
fn fill_item<T>(
    grid: &CellGrid<T>,
    rcols: &Vec<Abs>,
    rows: &Vec<RowPiece>,
    is_rtl: bool,
    x: usize,
    r: usize,
    dx: Abs,
    dy: Abs,
    span: Span,
) -> (res: Option<(Point, FrameItem)>)
    requires
        spec_fills_fit(grid, rcols@, rows@, is_rtl),
        x < rcols@.len(),
        r < rows@.len(),
        0 <= dx.0 <= sum(raw_sizes(rcols@)),
    ensures
        res == spec_fill_item(grid, rcols@, rows@, is_rtl, x as int, r as int, dx.0 as int, dy.0 as int, span),
{
    let y = rows[r].y;
    let parent = grid.effective_parent_cell_position(x, y);
    match parent {
        Some(p) => {
            proof {
                lemma_first_row_from(rows@, p.y as int, 0);
                assert(rows@[r as int].y == y);
                assert(spec_effective_parent(grid, x as int, y as int) == Some((p.x as int, p.y as int)));
            }
            let found = first_row_at_or_below(rows, p.y);
            let below = match found {
                Some(j) => {
                    assert(first_row_from(rows@, p.y as int, 0) == Some(j as int));
                    rows[j].y == y
                },
                None => {
                    assert(first_row_from(rows@, p.y as int, 0) is None);
                    false
                },
            };
            assert(below == spec_first_row_is(rows@, p.y as int, y as int));
            let starts = p.x == x && (p.y == y || below);
            assert(starts == (spec_fill_parent(grid, rows@, x as int, r as int) is Some));
            if !starts || p.y >= grid.rows.len() {
                return None;
            }
            assert(spec_fill_parent(grid, rows@, x as int, r as int) == Some((p.x as int, p.y as int)));
            match grid.cell(p.x, p.y) {
                Some(cell) => {
                    proof {
                        let idx = grid.spec_entry_index(p.x as int, p.y as int)->Some_0;
                        assert(grid.entries@[idx] matches Entry::Cell(_));
                    }
                    match cell.fill {
                        Some(fill) => {
                            let rs = grid.effective_rowspan_of_cell(cell);
                            let h = if rs == 1 {
                                rows[r].height
                            } else {
                                span_height(rows, p.y, p.y + rs)
                            };
                            let cs = grid.effective_colspan_of_cell(cell);
                            let w = span_width(rcols, x, cs);
                            proof {
                                lemma_span_height_le(rows@, p.y as int, p.y + rs, rows@.len() as int);
                                assert(row_heights(rows@).take(rows@.len() as int) =~= row_heights(rows@));
                            }
                            let offset = if is_rtl {
                                rcols[x].minus(w)
                            } else {
                                Abs::zero()
                            };
                            let rect = Geometry::Rect(Axes::new(w, h)).filled(fill);
                            Some((Point::new(dx.plus(offset), dy), FrameItem::Shape(rect, span)))
                        },
                        None => None,
                    }
                },
                None => None,
            }
        },
        None => None,
    }
}


/// The fill items of the cells of a region, column by column in visual
/// order (from the right in right-to-left layout), each column from the top
/// down.
pub fn render_fills<T>(
    grid: &CellGrid<T>,
    rcols: &Vec<Abs>,
    rows: &Vec<RowPiece>,
    is_rtl: bool,
    span: Span,
) -> (r: Vec<(Point, FrameItem)>)
    requires
        spec_fills_fit(grid, rcols@, rows@, is_rtl),
    ensures
        r@ == spec_fills(grid, rcols@, rows@, is_rtl, rcols@.len() as int, span),
{
    let n = rcols.len();
    let m = rows.len();
    let ghost raw = raw_sizes(rcols@);
    let ghost vis = raw_sizes(spec_visual_widths(rcols@, is_rtl));
    let mut fills: Vec<(Point, FrameItem)> = Vec::new();
    let mut dx = Abs::zero();
    let mut k: usize = 0;
    while k < n
        invariant
            spec_fills_fit(grid, rcols@, rows@, is_rtl),
            n == rcols@.len(),
            m == rows@.len(),
            k <= n,
            vis == raw_sizes(spec_visual_widths(rcols@, is_rtl)),
            dx.0 == sum(vis.take(k as int)),
            fills@ == spec_fills(grid, rcols@, rows@, is_rtl, k as int, span),
        decreases n - k,
    {
        let x = if is_rtl {
            n - 1 - k
        } else {
            k
        };
        proof {
            assert(forall|i: int| 0 <= i < vis.len() ==> vis[i] >= 0) by {
                assert forall|i: int| 0 <= i < vis.len() implies vis[i] >= 0 by {
                    if is_rtl {
                        assert(spec_visual_widths(rcols@, is_rtl)[i] == rcols@[n - 1 - i]);
                    }
                }
            }
            lemma_prefix_le(vis, k as int, n as int);
            lemma_visual_total(rcols@, is_rtl);
        }
        let ghost before = fills@;
        let mut r: usize = 0;
        let mut dy = Abs::zero();
        while r < m
            invariant
                spec_fills_fit(grid, rcols@, rows@, is_rtl),
                n == rcols@.len(),
                m == rows@.len(),
                x < n,
                x == spec_visual_column(n as int, is_rtl, k as int),
                0 <= dx.0 <= sum(raw_sizes(rcols@)),
                r <= m,
                dy.0 == sum(row_heights(rows@).take(r as int)),
                fills@ == before + spec_column_fills(grid, rcols@, rows@, is_rtl, x as int, dx.0 as int, r as int, span),
            decreases m - r,
        {
            proof {
                assert(forall|j: int| 0 <= j < m ==> row_heights(rows@)[j] >= 0) by {
                    assert forall|j: int| 0 <= j < m implies row_heights(rows@)[j] >= 0 by {
                        assert(row_heights(rows@)[j] == rows@[j].height.0);
                    }
                }
                lemma_prefix_le(row_heights(rows@), r + 1, m as int);
                assert(row_heights(rows@).take(r + 1).drop_last() =~= row_heights(rows@).take(r as int));
            }
            match fill_item(grid, rcols, rows, is_rtl, x, r, dx, dy, span) {
                Some(item) => fills.push(item),
                None => {},
            }
            dy = dy.plus(rows[r].height);
            r += 1;
        }
        proof {
            assert(vis.take(k + 1).drop_last() =~= vis.take(k as int));
            if is_rtl {
                assert(spec_visual_widths(rcols@, is_rtl)[k as int] == rcols@[x as int]);
            }
            assert(fills@ =~= spec_fills(grid, rcols@, rows@, is_rtl, k + 1, span));
        }
        dx = dx.plus(rcols[x]);
        k += 1;
    }
    fills
}

proof fn lemma_visual_total(rcols: Seq<Abs>, is_rtl: bool)
    requires
        forall|i: int| 0 <= i < rcols.len() ==> (#[trigger] rcols[i]).0 >= 0,
    ensures
        sum(raw_sizes(spec_visual_widths(rcols, is_rtl))) == sum(raw_sizes(rcols)),
{
    if is_rtl {
        assert(raw_sizes(rcols.reverse()) =~= raw_sizes(rcols).reverse());
        lemma_sum_reverse(raw_sizes(rcols));
    }
}

proof fn lemma_sum_reverse(s: Seq<int>)
    ensures
        sum(s.reverse()) == sum(s),
    decreases s.len(),
{
    if s.len() > 0 {
        let rest = s.drop_last();
        lemma_sum_reverse(rest);
        assert(s.reverse() =~= seq![s.last()] + rest.reverse());
        lemma_sum_cons(s.last(), rest.reverse());
    }
}

proof fn lemma_sum_cons(a: int, s: Seq<int>)
    ensures
        sum(seq![a] + s) == a + sum(s),
    decreases s.len(),
{
    if s.len() > 0 {
        lemma_sum_cons(a, s.drop_last());
        let t = seq![a] + s;
        assert(t.drop_last() =~= seq![a] + s.drop_last());
        assert(t.last() == s.last());
        assert(sum(t) == sum(t.drop_last()) + t.last());
    } else {
        let t = seq![a] + s;
        assert(t =~= seq![a]);
        assert(t.drop_last() =~= Seq::<int>::empty());
        assert(sum(t) == sum(t.drop_last()) + t.last());
    }
}

} // verus!
