//! The grid lines of a laid-out grid, and their rendering together with the
//! cell fills.

use vstd::prelude::*;

use crate::content::Span;
use crate::frame::{Frame, FrameItem, FrameView};
use crate::geom::{in_range, Abs, Axes, Point};
use crate::grid::layout::{CellGrid, RowPiece};
use crate::grid::lines::{
    expected_line_position, folded_line_stroke, generate_line_segments, segments_view,
    spec_hline_stroke_at_column, spec_segments, spec_vline_stroke_at_row, sum, track_sizes,
    hline_stroke_at_column, vline_stroke_at_row, Line,
};
use crate::grid::render::{render_fills, row_heights, spec_fills, spec_fills_fit};
use crate::grid::rowspans::raw_sizes;
use crate::visualize::{Geometry, Shape, Stroke};

verus! {

/// A line ready to be drawn: its thickness, its position and its shape.
#[derive(Clone, Copy, PartialEq, Eq, Structural, Debug)]
pub struct LineItem {
    /// The thickness of the line's stroke.
    pub thickness: Abs,
    /// Where the line starts.
    pub pos: Point,
    /// The line's shape.
    pub shape: Shape,
}

/// Half a thickness, rounded toward zero.
pub open spec fn spec_half(t: int) -> int {
    if t >= 0 {
        t / 2
    } else {
        -((-t) / 2)
    }
}

/// Half a thickness, rounded toward zero.
fn half(t: i64) -> (r: i64)
    ensures
        r == spec_half(t as int),
{
    if t >= 0 {
        t / 2
    } else if t == i64::MIN {
        i64::MIN / 2
    } else {
        -((-t) / 2)
    }
}

/// The least thickness among the lines (zero for no lines).
pub open spec fn spec_least_thickness(s: Seq<LineItem>) -> int
    decreases s.len(),
{
    if s.len() == 0 {
        0
    } else if s.len() == 1 {
        s[0].thickness.0 as int
    } else {
        let m = spec_least_thickness(s.drop_last());
        if (s.last().thickness.0 as int) < m {
            s.last().thickness.0 as int
        } else {
            m
        }
    }
}

/// The lines of the given thickness (`same`), or of any other thickness
/// (`!same`), in their order.
pub open spec fn spec_keep(s: Seq<LineItem>, t: int, same: bool) -> Seq<LineItem>
    decreases s.len(),
{
    if s.len() == 0 {
        seq![]
    } else {
        let rest = spec_keep(s.drop_last(), t, same);
        if ((s.last().thickness.0 as int) == t) == same {
            rest.push(s.last())
        } else {
            rest
        }
    }
}

/// The lines ordered by increasing thickness, lines of equal thickness in
/// their given order: the thinnest lines first, then the others ordered
/// likewise.
pub open spec fn spec_by_thickness(s: Seq<LineItem>) -> Seq<LineItem>
    decreases s.len(),
{
    if s.len() == 0 {
        seq![]
    } else {
        let t = spec_least_thickness(s);
        proof {
            lemma_least_thickness_attained(s);
            lemma_keep_shorter(s, t);
        }
        spec_keep(s, t, true) + spec_by_thickness(spec_keep(s, t, false))
    }
}

/// The least thickness is that of one of the lines, and no line is thinner.
pub proof fn lemma_least_thickness_attained(s: Seq<LineItem>)
    requires
        s.len() > 0,
    ensures
        exists|i: int| 0 <= i < s.len() && (#[trigger] s[i]).thickness.0 == spec_least_thickness(s),
        forall|i: int| 0 <= i < s.len() ==> spec_least_thickness(s) <= (#[trigger] s[i]).thickness.0,
    decreases s.len(),
{
    if s.len() == 1 {
        assert(s[0].thickness.0 == spec_least_thickness(s));
    } else {
        let p = s.drop_last();
        lemma_least_thickness_attained(p);
        let i = choose|i: int| 0 <= i < p.len() && (#[trigger] p[i]).thickness.0 == spec_least_thickness(p);
        if (s.last().thickness.0 as int) < spec_least_thickness(p) {
            assert(s[s.len() - 1].thickness.0 == spec_least_thickness(s));
        } else {
            assert(s[i] == p[i]);
        }
        assert forall|k: int| 0 <= k < s.len() implies spec_least_thickness(s) <= (
        #[trigger] s[k]).thickness.0 by {
            if k < s.len() - 1 {
                assert(s[k] == p[k]);
            }
        }
    }
}

/// Keeping the lines of one thickness and those of the others splits the
/// lines; leaving out a thickness that occurs shortens them.
pub proof fn lemma_keep_shorter(s: Seq<LineItem>, t: int)
    ensures
        spec_keep(s, t, true).len() + spec_keep(s, t, false).len() == s.len(),
        (exists|i: int| 0 <= i < s.len() && (#[trigger] s[i]).thickness.0 == t) ==> spec_keep(
            s,
            t,
            false,
        ).len() < s.len(),
    decreases s.len(),
{
    if s.len() > 0 {
        let p = s.drop_last();
        lemma_keep_shorter(p, t);
        if exists|i: int| 0 <= i < s.len() && (#[trigger] s[i]).thickness.0 == t {
            let i = choose|i: int| 0 <= i < s.len() && (#[trigger] s[i]).thickness.0 == t;
            if i < s.len() - 1 {
                assert(p[i] == s[i]);
            }
        }
    }
}

/// The lines kept for a thickness have that thickness (or, for `!same`,
/// another one) and are among the given lines.
proof fn lemma_keep_members(s: Seq<LineItem>, t: int, same: bool)
    ensures
        forall|i: int|
            0 <= i < spec_keep(s, t, same).len() ==> {
                &&& ((#[trigger] spec_keep(s, t, same)[i]).thickness.0 == t) == same
                &&& s.contains(spec_keep(s, t, same)[i])
            },
    decreases s.len(),
{
    if s.len() > 0 {
        let p = s.drop_last();
        lemma_keep_members(p, t, same);
        let k = spec_keep(s, t, same);
        assert forall|i: int| 0 <= i < k.len() implies {
            &&& ((#[trigger] k[i]).thickness.0 == t) == same
            &&& s.contains(k[i])
        } by {
            let kp = spec_keep(p, t, same);
            if i < kp.len() {
                assert(k[i] == kp[i]);
                let j = choose|j: int| 0 <= j < p.len() && p[j] == kp[i];
                assert(s[j] == p[j]);
            } else {
                assert(k[i] == s.last());
                assert(s[s.len() - 1] == s.last());
            }
        }
    }
}

/// Ordering lines by thickness keeps their number, and each ordered line
/// is one of the given lines.
pub proof fn lemma_by_thickness_members(s: Seq<LineItem>)
    ensures
        spec_by_thickness(s).len() == s.len(),
        forall|i: int| 0 <= i < s.len() ==> s.contains(#[trigger] spec_by_thickness(s)[i]),
    decreases s.len(),
{
    if s.len() > 0 {
        let t = spec_least_thickness(s);
        lemma_least_thickness_attained(s);
        lemma_keep_shorter(s, t);
        let same = spec_keep(s, t, true);
        let rest = spec_keep(s, t, false);
        lemma_keep_members(s, t, true);
        lemma_keep_members(s, t, false);
        lemma_by_thickness_members(rest);
        let by = spec_by_thickness(s);
        assert(by == same + spec_by_thickness(rest));
        assert forall|i: int| 0 <= i < s.len() implies s.contains(#[trigger] by[i]) by {
            if i < same.len() {
                assert(by[i] == same[i]);
            } else {
                let m = spec_by_thickness(rest)[i - same.len()];
                assert(by[i] == m);
                assert(rest.contains(m));
                let j = choose|j: int| 0 <= j < rest.len() && rest[j] == m;
                assert(s.contains(rest[j]));
            }
        }
    }
}

/// Lines ordered by thickness go from the thinnest to the thickest, so
/// that a thicker line is drawn over a thinner one.
pub proof fn lemma_by_thickness_sorted(s: Seq<LineItem>)
    ensures
        forall|i: int, j: int|
            0 <= i <= j < spec_by_thickness(s).len() ==> (#[trigger] spec_by_thickness(s)[i]).thickness.0
                <= (#[trigger] spec_by_thickness(s)[j]).thickness.0,
    decreases s.len(),
{
    if s.len() > 0 {
        let t = spec_least_thickness(s);
        lemma_least_thickness_attained(s);
        lemma_keep_shorter(s, t);
        let same = spec_keep(s, t, true);
        let rest = spec_keep(s, t, false);
        lemma_keep_members(s, t, true);
        lemma_keep_members(s, t, false);
        lemma_by_thickness_sorted(rest);
        lemma_by_thickness_members(rest);
        let br = spec_by_thickness(rest);
        let by = spec_by_thickness(s);
        assert(by == same + br);
        assert forall|k: int| 0 <= k < br.len() implies (#[trigger] br[k]).thickness.0 > t by {
            assert(rest.contains(br[k]));
            let m = choose|m: int| 0 <= m < rest.len() && rest[m] == br[k];
            assert(s.contains(rest[m]));
            let j = choose|j: int| 0 <= j < s.len() && s[j] == rest[m];
            assert(t <= s[j].thickness.0);
        }
        assert forall|i: int, j: int| 0 <= i <= j < by.len() implies (#[trigger] by[i]).thickness.0
            <= (#[trigger] by[j]).thickness.0 by {
            if j < same.len() {
                assert(by[i] == same[i] && by[j] == same[j]);
            } else if i < same.len() {
                assert(by[i] == same[i]);
                assert(by[j] == br[j - same.len()]);
            } else {
                assert(by[i] == br[i - same.len()]);
                assert(by[j] == br[j - same.len()]);
            }
        }
    }
}

/// Orders lines by increasing thickness, keeping the order of lines of the
/// same thickness, so that thicker lines are drawn on top.
pub fn sort_by_thickness(lines: Vec<LineItem>) -> (r: Vec<LineItem>)
    ensures
        r@ == spec_by_thickness(lines@),
{
    let ghost all = lines@;
    let mut out: Vec<LineItem> = Vec::new();
    let mut remaining = lines;
    while remaining.len() > 0
        invariant
            out@ + spec_by_thickness(remaining@) == spec_by_thickness(all),
        decreases remaining@.len(),
    {
        let mut least = remaining[0].thickness.0;
        let mut i: usize = 1;
        while i < remaining.len()
            invariant
                1 <= i <= remaining@.len(),
                least == spec_least_thickness(remaining@.take(i as int)),
            decreases remaining@.len() - i,
        {
            proof {
                assert(remaining@.take(i + 1).drop_last() =~= remaining@.take(i as int));
            }
            if remaining[i].thickness.0 < least {
                least = remaining[i].thickness.0;
            }
            i += 1;
        }
        proof {
            assert(remaining@.take(remaining@.len() as int) =~= remaining@);
        }
        let mut same: Vec<LineItem> = Vec::new();
        let mut rest: Vec<LineItem> = Vec::new();
        let mut j: usize = 0;
        proof {
            assert(remaining@.take(0) =~= Seq::<LineItem>::empty());
        }
        while j < remaining.len()
            invariant
                j <= remaining@.len(),
                same@ == spec_keep(remaining@.take(j as int), least as int, true),
                rest@ == spec_keep(remaining@.take(j as int), least as int, false),
            decreases remaining@.len() - j,
        {
            proof {
                assert(remaining@.take(j + 1).drop_last() =~= remaining@.take(j as int));
            }
            let item = remaining[j];
            if item.thickness.0 == least {
                same.push(item);
            } else {
                rest.push(item);
            }
            j += 1;
        }
        proof {
            assert(remaining@.take(remaining@.len() as int) =~= remaining@);
            lemma_least_thickness_attained(remaining@);
            lemma_keep_shorter(remaining@, least as int);
            assert(spec_by_thickness(remaining@) == same@ + spec_by_thickness(rest@));
            assert(out@ + same@ + spec_by_thickness(rest@) =~= out@ + spec_by_thickness(remaining@));
        }
        out.append(&mut same);
        remaining = rest;
    }
    proof {
        assert(out@ + spec_by_thickness(remaining@) =~= out@);
    }
    out
}

/// The item of a segment (stroke, offset, length) of a vertical line at
/// horizontal offset `dx`, mirrored in right-to-left layout within the
/// given width: drawn with the segment's stroke and its defaults, from half
/// a thickness above the segment to half a thickness below it.
pub open spec fn spec_vline_item(seg: (Stroke, int, int), dx: int, width: int, is_rtl: bool) -> LineItem {
    let fs = seg.0.spec_unwrap_or_default();
    let t = fs.thickness.0 as int;
    let x = if is_rtl {
        width - dx
    } else {
        dx
    };
    LineItem {
        thickness: fs.thickness,
        pos: Point { x: Abs(x as i64), y: Abs((seg.1 - spec_half(t)) as i64) },
        shape: Geometry::Line(Point { x: Abs(0), y: Abs((seg.2 + t) as i64) }).spec_stroked(fs),
    }
}

/// Whether the coordinates of a vertical line's segment are lengths.
pub open spec fn spec_vline_item_fits(seg: (Stroke, int, int), dx: int, width: int, is_rtl: bool) -> bool {
    let t = seg.0.spec_unwrap_or_default().thickness.0 as int;
    &&& in_range(
        if is_rtl {
            width - dx
        } else {
            dx
        },
    )
    &&& in_range(seg.1 - spec_half(t))
    &&& in_range(seg.2 + t)
}

/// The item of a segment of a vertical line.
fn vline_item(seg: (Stroke, Abs, Abs), dx: Abs, width: Abs, is_rtl: bool) -> (r: LineItem)
    requires
        spec_vline_item_fits((seg.0, seg.1.0 as int, seg.2.0 as int), dx.0 as int, width.0 as int, is_rtl),
    ensures
        r == spec_vline_item((seg.0, seg.1.0 as int, seg.2.0 as int), dx.0 as int, width.0 as int, is_rtl),
{
    let fs = seg.0.unwrap_or_default();
    let t = fs.thickness.0;
    let x = if is_rtl {
        width.0 - dx.0
    } else {
        dx.0
    };
    let shape = Geometry::Line(Point { x: Abs(0), y: Abs(seg.2.0 + t) }).stroked(fs);
    LineItem { thickness: fs.thickness, pos: Point { x: Abs(x), y: Abs(seg.1.0 - half(t)) }, shape }
}

/// The lines of a list of line lists, none past its end.
pub open spec fn spec_lines_at(lists: Seq<Vec<Line>>, i: int) -> Seq<Line> {
    if 0 <= i < lists.len() {
        lists[i]@
    } else {
        seq![]
    }
}

/// The list of lines that holds the lines at a track index: the index
/// itself without gutter; with gutter, the content track's list, and the
/// one after the last content track for the end border.
pub open spec fn spec_line_list(has_gutter: bool, i: int, is_end: bool) -> int {
    if !has_gutter {
        i
    } else if is_end {
        i / 2 + 1
    } else {
        i / 2
    }
}

/// The rows of a region as tracks: row index and height.
pub open spec fn spec_row_tracks(rows: Seq<RowPiece>) -> Seq<(usize, Abs)> {
    rows.map_values(|r: RowPiece| (r.y, r.height))
}

/// The strokes of the vertical line before column `x` through the rows of a
/// region.
pub open spec fn spec_vline_strokes<T>(grid: &CellGrid<T>, rows: Seq<RowPiece>, x: int) -> Seq<Option<Stroke>> {
    let is_end = x == grid.cols@.len();
    let lines = spec_lines_at(grid.vlines@, spec_line_list(grid.has_gutter, x, is_end));
    Seq::new(
        rows.len(),
        |j: int|
            spec_vline_stroke_at_row(
                grid,
                x,
                rows[j].y as int,
                folded_line_stroke(
                    lines,
                    rows[j].y as int,
                    expected_line_position(grid.has_gutter, x, is_end),
                    grid.has_gutter,
                ),
            ),
    )
}

/// The segments of the vertical line before column `x` in a region.
pub open spec fn spec_vline_segments<T>(grid: &CellGrid<T>, rows: Seq<RowPiece>, x: int) -> Seq<(Stroke, int, int)> {
    spec_segments(row_heights(rows), spec_vline_strokes(grid, rows, x))
}

/// The items of the vertical line before column `x`, at offset `dx`.
pub open spec fn spec_column_vlines<T>(
    grid: &CellGrid<T>,
    rows: Seq<RowPiece>,
    x: int,
    dx: int,
    width: int,
    is_rtl: bool,
) -> Seq<LineItem> {
    spec_vline_segments(grid, rows, x).map_values(
        |s: (Stroke, int, int)| spec_vline_item(s, dx, width, is_rtl),
    )
}

/// The items of the vertical lines before the first `k` columns (the last
/// one, at `k` equal to the number of columns, being the end border), each
/// at the offset of its column.
pub open spec fn spec_vlines<T>(
    grid: &CellGrid<T>,
    rcols: Seq<Abs>,
    rows: Seq<RowPiece>,
    width: int,
    is_rtl: bool,
    k: int,
) -> Seq<LineItem>
    decreases k,
{
    if k <= 0 {
        seq![]
    } else {
        spec_vlines(grid, rcols, rows, width, is_rtl, k - 1) + spec_column_vlines(
            grid,
            rows,
            k - 1,
            sum(raw_sizes(rcols).take(k - 1)),
            width,
            is_rtl,
        )
    }
}

/// Whether, for an inner vertical line before column `x`, the position
/// after it in row `y` (with gutter, the next content position) holds a
/// cell or a part of one.
pub open spec fn spec_cell_after_vline<T>(grid: &CellGrid<T>, x: int, y: int) -> bool {
    0 < x < grid.cols@.len() ==> grid.spec_parent_cell_position(
        if grid.has_gutter {
            x + x % 2
        } else {
            x
        },
        if grid.has_gutter {
            y + y % 2
        } else {
            y
        },
    ) is Some
}

/// Whether the vertical lines of a region can be drawn: the grid is well
/// formed, has a column size for each column and each row of the region is
/// a row of the grid; the cells that the lines pass between are there; the
/// row heights are not negative and add up to a length; the column offsets
/// are lengths; and every segment's coordinates are lengths.
pub open spec fn spec_vlines_fit<T>(
    grid: &CellGrid<T>,
    rcols: Seq<Abs>,
    rows: Seq<RowPiece>,
    width: int,
    is_rtl: bool,
) -> bool {
    &&& grid.wf()
    &&& rcols.len() == grid.cols@.len()
    &&& forall|j: int| 0 <= j < rows.len() ==> (#[trigger] rows[j]).y < grid.rows@.len()
    &&& forall|j: int| 0 <= j < rows.len() ==> (#[trigger] rows[j]).height.0 >= 0
    &&& sum(row_heights(rows)) <= i64::MAX
    &&& forall|x: int, j: int|
        0 <= j < rows.len() ==> #[trigger] spec_cell_after_vline(grid, x, rows[j].y as int)
    &&& forall|x: int| 0 <= x <= rcols.len() ==> in_range(sum(#[trigger] raw_sizes(rcols).take(x)))
    &&& forall|x: int, s: int|
        0 <= x <= rcols.len() && 0 <= s < spec_vline_segments(grid, rows, x).len()
            ==> spec_vline_item_fits(
            #[trigger] spec_vline_segments(grid, rows, x)[s],
            sum(raw_sizes(rcols).take(x)),
            width,
            is_rtl,
        )
}

/// The rows of a region as tracks.
fn row_tracks(rows: &Vec<RowPiece>) -> (r: Vec<(usize, Abs)>)
    ensures
        r@ == spec_row_tracks(rows@),
{
    let mut out: Vec<(usize, Abs)> = Vec::new();
    let mut j: usize = 0;
    while j < rows.len()
        invariant
            j <= rows@.len(),
            out@ == spec_row_tracks(rows@).take(j as int),
        decreases rows@.len() - j,
    {
        out.push((rows[j].y, rows[j].height));
        proof {
            assert(out@ =~= spec_row_tracks(rows@).take(j + 1));
        }
        j += 1;
    }
    proof {
        assert(spec_row_tracks(rows@).take(rows@.len() as int) =~= spec_row_tracks(rows@));
    }
    out
}

/// The items of the vertical lines of a region, column by column from the
/// start border to the end border, each column's from the top down.
pub fn render_vlines<T>(
    grid: &CellGrid<T>,
    rcols: &Vec<Abs>,
    rows: &Vec<RowPiece>,
    width: Abs,
    is_rtl: bool,
) -> (r: Vec<LineItem>)
    requires
        spec_vlines_fit(grid, rcols@, rows@, width.0 as int, is_rtl),
    ensures
        r@ == spec_vlines(grid, rcols@, rows@, width.0 as int, is_rtl, rcols@.len() + 1int),
{
    let tracks = row_tracks(rows);
    let ghost heights = row_heights(rows@);
    proof {
        assert(track_sizes(tracks@) =~= heights);
    }
    let empty: Vec<Line> = Vec::new();
    let mut out: Vec<LineItem> = Vec::new();
    let mut dx: i64 = 0;
    let mut x: usize = 0;
    let n = rcols.len();
    while x <= n
        invariant
            spec_vlines_fit(grid, rcols@, rows@, width.0 as int, is_rtl),
            n == rcols@.len(),
            x <= n + 1,
            tracks@ == spec_row_tracks(rows@),
            track_sizes(tracks@) == row_heights(rows@),
            empty@ == Seq::<Line>::empty(),
            x <= n ==> dx == sum(raw_sizes(rcols@).take(x as int)),
            out@ == spec_vlines(grid, rcols@, rows@, width.0 as int, is_rtl, x as int),
        decreases n + 1 - x,
    {
        let is_end = x == grid.cols.len();
        let list = if !grid.has_gutter {
            x
        } else if is_end {
            x / 2 + 1
        } else {
            x / 2
        };
        let lines: &Vec<Line> = if list < grid.vlines.len() {
            &grid.vlines[list]
        } else {
            &empty
        };
        let ghost position = expected_line_position(grid.has_gutter, x as int, is_end);
        proof {
            assert(lines@ == spec_lines_at(grid.vlines@, spec_line_list(grid.has_gutter, x as int, is_end)));
            assert forall|j: int| 0 <= j < tracks@.len() implies (#[trigger] tracks@[j]).1.0 >= 0 by {
                assert(tracks@[j].1 == rows@[j].height);
            }
            assert forall|j: int| 0 <= j < tracks@.len() implies call_requires(
                vline_stroke_at_row::<T>,
                (
                    grid,
                    x,
                    (#[trigger] tracks@[j]).0,
                    folded_line_stroke(lines@, tracks@[j].0 as int, position, grid.has_gutter),
                ),
            ) by {
                assert(tracks@[j].0 == rows@[j].y);
                assert(spec_cell_after_vline(grid, x as int, rows@[j].y as int));
            }
        }
        let segs = generate_line_segments(grid, &tracks, x, lines, is_end, vline_stroke_at_row);
        proof {
            let strokes = choose|strokes: Seq<Option<Stroke>>|
                {
                    &&& strokes.len() == tracks@.len()
                    &&& forall|j: int|
                        0 <= j < tracks@.len() ==> call_ensures(
                            vline_stroke_at_row::<T>,
                            (
                                grid,
                                x,
                                tracks@[j].0,
                                folded_line_stroke(lines@, tracks@[j].0 as int, position, grid.has_gutter),
                            ),
                            #[trigger] strokes[j],
                        )
                    &&& segments_view(segs@) == spec_segments(track_sizes(tracks@), strokes)
                };
            assert(strokes =~= spec_vline_strokes(grid, rows@, x as int)) by {
                assert forall|j: int| 0 <= j < strokes.len() implies strokes[j] == spec_vline_strokes(
                    grid,
                    rows@,
                    x as int,
                )[j] by {
                    assert(tracks@[j].0 == rows@[j].y);
                }
            }
            assert(segments_view(segs@) == spec_vline_segments(grid, rows@, x as int));
        }
        let ghost before = out@;
        let mut s: usize = 0;
        while s < segs.len()
            invariant
                spec_vlines_fit(grid, rcols@, rows@, width.0 as int, is_rtl),
                n == rcols@.len(),
                x <= n,
                dx == sum(raw_sizes(rcols@).take(x as int)),
                segments_view(segs@) == spec_vline_segments(grid, rows@, x as int),
                s <= segs@.len(),
                out@ == before + spec_column_vlines(grid, rows@, x as int, dx as int, width.0 as int, is_rtl).take(
                    s as int,
                ),
            decreases segs@.len() - s,
        {
            proof {
                assert(segments_view(segs@)[s as int] == spec_vline_segments(grid, rows@, x as int)[s as int]);
            }
            let item = vline_item(segs[s], Abs(dx), width, is_rtl);
            out.push(item);
            proof {
                assert(out@ =~= before + spec_column_vlines(
                    grid,
                    rows@,
                    x as int,
                    dx as int,
                    width.0 as int,
                    is_rtl,
                ).take(s + 1));
            }
            s += 1;
        }
        proof {
            assert(spec_column_vlines(grid, rows@, x as int, dx as int, width.0 as int, is_rtl).take(
                segs@.len() as int,
            ) =~= spec_column_vlines(grid, rows@, x as int, dx as int, width.0 as int, is_rtl));
            assert(out@ =~= spec_vlines(grid, rcols@, rows@, width.0 as int, is_rtl, x + 1));
        }
        if x < n {
            proof {
                assert(raw_sizes(rcols@).take(x + 1).drop_last() =~= raw_sizes(rcols@).take(x as int));
                assert(in_range(sum(raw_sizes(rcols@).take(x + 1))));
            }
            dx = dx + rcols[x].0;
        }
        x += 1;
    }
    out
}

/// The item of a segment (stroke, offset, length) of a horizontal line at
/// vertical offset `dy`, mirrored in right-to-left layout within the given
/// width: drawn with the segment's stroke and its defaults, from half a
/// thickness before the segment to half a thickness after it.
pub open spec fn spec_hline_item(seg: (Stroke, int, int), dy: int, width: int, is_rtl: bool) -> LineItem {
    let fs = seg.0.spec_unwrap_or_default();
    let t = fs.thickness.0 as int;
    let x = if is_rtl {
        width - seg.1 - seg.2
    } else {
        seg.1
    };
    LineItem {
        thickness: fs.thickness,
        pos: Point { x: Abs((x - spec_half(t)) as i64), y: Abs(dy as i64) },
        shape: Geometry::Line(Point { x: Abs((seg.2 + t) as i64), y: Abs(0) }).spec_stroked(fs),
    }
}

/// Whether the coordinates of a horizontal line's segment are lengths.
pub open spec fn spec_hline_item_fits(seg: (Stroke, int, int), dy: int, width: int, is_rtl: bool) -> bool {
    let t = seg.0.spec_unwrap_or_default().thickness.0 as int;
    let x = if is_rtl {
        width - seg.1 - seg.2
    } else {
        seg.1
    };
    &&& in_range(width - seg.1)
    &&& in_range(x)
    &&& in_range(x - spec_half(t))
    &&& in_range(dy)
    &&& in_range(seg.2 + t)
}

/// The item of a segment of a horizontal line.
fn hline_item(seg: (Stroke, Abs, Abs), dy: Abs, width: Abs, is_rtl: bool) -> (r: LineItem)
    requires
        spec_hline_item_fits((seg.0, seg.1.0 as int, seg.2.0 as int), dy.0 as int, width.0 as int, is_rtl),
    ensures
        r == spec_hline_item((seg.0, seg.1.0 as int, seg.2.0 as int), dy.0 as int, width.0 as int, is_rtl),
{
    let fs = seg.0.unwrap_or_default();
    let t = fs.thickness.0;
    let x = if is_rtl {
        width.0 - seg.1.0 - seg.2.0
    } else {
        seg.1.0
    };
    let shape = Geometry::Line(Point { x: Abs(seg.2.0 + t), y: Abs(0) }).stroked(fs);
    LineItem { thickness: fs.thickness, pos: Point { x: Abs(x - half(t)), y: dy }, shape }
}

/// The grid row that the horizontal line at position `j` of a region is on
/// top of: the region's row, and after its last row the bottom border.
pub open spec fn spec_hline_y<T>(grid: &CellGrid<T>, rows: Seq<RowPiece>, j: int) -> int {
    if j < rows.len() {
        rows[j].y as int
    } else {
        grid.rows@.len() as int
    }
}

/// The user-specified lines of the horizontal line at position `j` of a
/// region: those on top of its row, followed, at the top of a region that
/// does not start at the first row, by those of the top border, which take
/// priority.
pub open spec fn spec_hline_lines<T>(grid: &CellGrid<T>, rows: Seq<RowPiece>, j: int) -> Seq<Line> {
    let y = spec_hline_y(grid, rows, j);
    let own = spec_lines_at(grid.hlines@, spec_line_list(grid.has_gutter, y, y == grid.rows@.len()));
    if j == 0 && y != 0 {
        own + spec_lines_at(grid.hlines@, 0)
    } else {
        own
    }
}

/// The strokes of the horizontal line at position `j` of a region through
/// the columns.
pub open spec fn spec_hline_strokes<T>(
    grid: &CellGrid<T>,
    rcols: Seq<Abs>,
    rows: Seq<RowPiece>,
    j: int,
) -> Seq<Option<Stroke>> {
    let y = spec_hline_y(grid, rows, j);
    let is_bottom = y == grid.rows@.len();
    Seq::new(
        rcols.len(),
        |x: int|
            spec_hline_stroke_at_column(
                grid,
                y,
                x,
                folded_line_stroke(
                    spec_hline_lines(grid, rows, j),
                    x,
                    expected_line_position(grid.has_gutter, y, is_bottom),
                    grid.has_gutter,
                ),
            ),
    )
}

/// The segments of the horizontal line at position `j` of a region.
pub open spec fn spec_hline_segments<T>(
    grid: &CellGrid<T>,
    rcols: Seq<Abs>,
    rows: Seq<RowPiece>,
    j: int,
) -> Seq<(Stroke, int, int)> {
    spec_segments(raw_sizes(rcols), spec_hline_strokes(grid, rcols, rows, j))
}

/// The items of the horizontal line at position `j` of a region, at offset
/// `dy`.
pub open spec fn spec_row_hlines<T>(
    grid: &CellGrid<T>,
    rcols: Seq<Abs>,
    rows: Seq<RowPiece>,
    j: int,
    dy: int,
    width: int,
    is_rtl: bool,
) -> Seq<LineItem> {
    spec_hline_segments(grid, rcols, rows, j).map_values(
        |s: (Stroke, int, int)| spec_hline_item(s, dy, width, is_rtl),
    )
}

/// The items of the first `k` horizontal lines of a region (the one after
/// the last row being the bottom border), each at the offset of its row.
pub open spec fn spec_hlines<T>(
    grid: &CellGrid<T>,
    rcols: Seq<Abs>,
    rows: Seq<RowPiece>,
    width: int,
    is_rtl: bool,
    k: int,
) -> Seq<LineItem>
    decreases k,
{
    if k <= 0 {
        seq![]
    } else {
        spec_hlines(grid, rcols, rows, width, is_rtl, k - 1) + spec_row_hlines(
            grid,
            rcols,
            rows,
            k - 1,
            sum(row_heights(rows).take(k - 1)),
            width,
            is_rtl,
        )
    }
}

/// Whether the horizontal lines of a region can be drawn: the grid is well
/// formed, has a column size for each column and each row of the region is
/// a row of the grid (and there are fewer rows than the largest index);
/// the column sizes are not negative and add up to a
/// length; the row offsets are lengths; and every segment's coordinates
/// are lengths.
pub open spec fn spec_hlines_fit<T>(
    grid: &CellGrid<T>,
    rcols: Seq<Abs>,
    rows: Seq<RowPiece>,
    width: int,
    is_rtl: bool,
) -> bool {
    &&& grid.wf()
    &&& rcols.len() == grid.cols@.len()
    &&& forall|j: int| 0 <= j < rows.len() ==> (#[trigger] rows[j]).y < grid.rows@.len()
    &&& rows.len() < usize::MAX
    &&& forall|i: int| 0 <= i < rcols.len() ==> (#[trigger] rcols[i]).0 >= 0
    &&& sum(raw_sizes(rcols)) <= i64::MAX
    &&& forall|j: int| 0 <= j <= rows.len() ==> in_range(sum(#[trigger] row_heights(rows).take(j)))
    &&& forall|j: int, s: int|
        0 <= j <= rows.len() && 0 <= s < spec_hline_segments(grid, rcols, rows, j).len()
            ==> spec_hline_item_fits(
            #[trigger] spec_hline_segments(grid, rcols, rows, j)[s],
            sum(row_heights(rows).take(j)),
            width,
            is_rtl,
        )
}

/// The columns as tracks: column index and width.
fn column_tracks(rcols: &Vec<Abs>) -> (r: Vec<(usize, Abs)>)
    ensures
        r@.len() == rcols@.len(),
        forall|x: int| 0 <= x < rcols@.len() ==> (#[trigger] r@[x]) == (x as usize, rcols@[x]),
{
    let mut out: Vec<(usize, Abs)> = Vec::new();
    let mut x: usize = 0;
    while x < rcols.len()
        invariant
            x <= rcols@.len(),
            out@.len() == x,
            forall|k: int| 0 <= k < x ==> (#[trigger] out@[k]) == (k as usize, rcols@[k]),
        decreases rcols@.len() - x,
    {
        out.push((x, rcols[x]));
        x += 1;
    }
    out
}

/// The lines of one list followed by those of another.
fn concat_lines(a: &Vec<Line>, b: &Vec<Line>) -> (r: Vec<Line>)
    ensures
        r@ == a@ + b@,
{
    let mut out: Vec<Line> = Vec::new();
    let mut i: usize = 0;
    while i < a.len()
        invariant
            i <= a@.len(),
            out@ == a@.take(i as int),
        decreases a@.len() - i,
    {
        out.push(a[i]);
        proof {
            assert(out@ =~= a@.take(i + 1));
        }
        i += 1;
    }
    let mut k: usize = 0;
    while k < b.len()
        invariant
            i == a@.len(),
            k <= b@.len(),
            out@ == a@ + b@.take(k as int),
        decreases b@.len() - k,
    {
        out.push(b[k]);
        proof {
            assert(out@ =~= a@ + b@.take(k + 1));
        }
        k += 1;
    }
    proof {
        assert(b@.take(b@.len() as int) =~= b@);
    }
    out
}

/// The items of the horizontal lines of a region, row by row from the top
/// border to the bottom border, each row's in column order.
pub fn render_hlines<T>(
    grid: &CellGrid<T>,
    rcols: &Vec<Abs>,
    rows: &Vec<RowPiece>,
    width: Abs,
    is_rtl: bool,
) -> (r: Vec<LineItem>)
    requires
        spec_hlines_fit(grid, rcols@, rows@, width.0 as int, is_rtl),
    ensures
        r@ == spec_hlines(grid, rcols@, rows@, width.0 as int, is_rtl, rows@.len() + 1int),
{
    let tracks = column_tracks(rcols);
    proof {
        assert(track_sizes(tracks@) =~= raw_sizes(rcols@));
    }
    let empty: Vec<Line> = Vec::new();
    let border: &Vec<Line> = if grid.hlines.len() > 0 {
        &grid.hlines[0]
    } else {
        &empty
    };
    let mut out: Vec<LineItem> = Vec::new();
    let mut dy: i64 = 0;
    let mut j: usize = 0;
    let m = rows.len();
    while j <= m
        invariant
            spec_hlines_fit(grid, rcols@, rows@, width.0 as int, is_rtl),
            m == rows@.len(),
            j <= m + 1,
            tracks@.len() == rcols@.len(),
            forall|x: int| 0 <= x < rcols@.len() ==> (#[trigger] tracks@[x]) == (x as usize, rcols@[x]),
            track_sizes(tracks@) == raw_sizes(rcols@),
            empty@ == Seq::<Line>::empty(),
            border@ == spec_lines_at(grid.hlines@, 0),
            j <= m ==> dy == sum(row_heights(rows@).take(j as int)),
            out@ == spec_hlines(grid, rcols@, rows@, width.0 as int, is_rtl, j as int),
        decreases m + 1 - j,
    {
        let y = if j < m {
            rows[j].y
        } else {
            grid.rows.len()
        };
        let is_bottom = y == grid.rows.len();
        let list = if !grid.has_gutter {
            y
        } else if is_bottom {
            y / 2 + 1
        } else {
            y / 2
        };
        let own: &Vec<Line> = if list < grid.hlines.len() {
            &grid.hlines[list]
        } else {
            &empty
        };
        let lines = if j == 0 && y != 0 {
            concat_lines(own, border)
        } else {
            concat_lines(own, &empty)
        };
        let ghost position = expected_line_position(grid.has_gutter, y as int, is_bottom);
        proof {
            assert(y as int == spec_hline_y(grid, rows@, j as int));
            assert(own@ + Seq::<Line>::empty() =~= own@);
            assert(lines@ == spec_hline_lines(grid, rows@, j as int));
            assert forall|x: int| 0 <= x < tracks@.len() implies (#[trigger] tracks@[x]).1.0 >= 0 by {
                assert(tracks@[x].1 == rcols@[x]);
            }
            assert forall|x: int| 0 <= x < tracks@.len() implies call_requires(
                hline_stroke_at_column::<T>,
                (
                    grid,
                    y,
                    (#[trigger] tracks@[x]).0,
                    folded_line_stroke(lines@, tracks@[x].0 as int, position, grid.has_gutter),
                ),
            ) by {
                assert(tracks@[x].0 == x);
            }
        }
        let segs = generate_line_segments(grid, &tracks, y, &lines, is_bottom, hline_stroke_at_column);
        proof {
            let strokes = choose|strokes: Seq<Option<Stroke>>|
                {
                    &&& strokes.len() == tracks@.len()
                    &&& forall|x: int|
                        0 <= x < tracks@.len() ==> call_ensures(
                            hline_stroke_at_column::<T>,
                            (
                                grid,
                                y,
                                tracks@[x].0,
                                folded_line_stroke(lines@, tracks@[x].0 as int, position, grid.has_gutter),
                            ),
                            #[trigger] strokes[x],
                        )
                    &&& segments_view(segs@) == spec_segments(track_sizes(tracks@), strokes)
                };
            assert(strokes =~= spec_hline_strokes(grid, rcols@, rows@, j as int)) by {
                assert forall|x: int| 0 <= x < strokes.len() implies strokes[x] == spec_hline_strokes(
                    grid,
                    rcols@,
                    rows@,
                    j as int,
                )[x] by {
                    assert(tracks@[x].0 == x);
                }
            }
            assert(segments_view(segs@) == spec_hline_segments(grid, rcols@, rows@, j as int));
        }
        let ghost before = out@;
        let mut s: usize = 0;
        while s < segs.len()
            invariant
                spec_hlines_fit(grid, rcols@, rows@, width.0 as int, is_rtl),
                m == rows@.len(),
                j <= m,
                dy == sum(row_heights(rows@).take(j as int)),
                segments_view(segs@) == spec_hline_segments(grid, rcols@, rows@, j as int),
                s <= segs@.len(),
                out@ == before + spec_row_hlines(grid, rcols@, rows@, j as int, dy as int, width.0 as int, is_rtl).take(
                    s as int,
                ),
            decreases segs@.len() - s,
        {
            proof {
                assert(segments_view(segs@)[s as int] == spec_hline_segments(grid, rcols@, rows@, j as int)[s as int]);
            }
            let item = hline_item(segs[s], Abs(dy), width, is_rtl);
            out.push(item);
            proof {
                assert(out@ =~= before + spec_row_hlines(
                    grid,
                    rcols@,
                    rows@,
                    j as int,
                    dy as int,
                    width.0 as int,
                    is_rtl,
                ).take(s + 1));
            }
            s += 1;
        }
        proof {
            assert(spec_row_hlines(grid, rcols@, rows@, j as int, dy as int, width.0 as int, is_rtl).take(
                segs@.len() as int,
            ) =~= spec_row_hlines(grid, rcols@, rows@, j as int, dy as int, width.0 as int, is_rtl));
            assert(out@ =~= spec_hlines(grid, rcols@, rows@, width.0 as int, is_rtl, j + 1));
        }
        if j < m {
            proof {
                assert(row_heights(rows@).take(j + 1).drop_last() =~= row_heights(rows@).take(j as int));
                assert(in_range(sum(row_heights(rows@).take(j + 1))));
            }
            dy = dy + rows[j].height.0;
        }
        j += 1;
    }
    out
}

/// The frame item of a line.
pub open spec fn spec_line_frame_item(l: LineItem, span: Span) -> (Point, FrameItem) {
    (l.pos, FrameItem::Shape(l.shape, span))
}

/// The fills and lines of a region, to be put behind its contents: the cell
/// fills first, so that they appear below the lines, then the vertical and
/// horizontal lines ordered by increasing thickness, so that thicker lines
/// are drawn on top and, among lines of one thickness, horizontal lines
/// over vertical ones.
pub open spec fn spec_region_items<T>(
    grid: &CellGrid<T>,
    rcols: Seq<Abs>,
    rows: Seq<RowPiece>,
    width: int,
    is_rtl: bool,
    span: Span,
) -> Seq<(Point, FrameItem)> {
    let lines = spec_by_thickness(
        spec_vlines(grid, rcols, rows, width, is_rtl, rcols.len() + 1int) + spec_hlines(
            grid,
            rcols,
            rows,
            width,
            is_rtl,
            rows.len() + 1int,
        ),
    );
    spec_fills(grid, rcols, rows, is_rtl, rcols.len() as int, span) + lines.map_values(
        |l: LineItem| spec_line_frame_item(l, span),
    )
}

/// A region's frame with its fills and lines behind its contents; a region
/// without columns or rows is left as it is.
pub open spec fn spec_rendered<T>(
    grid: &CellGrid<T>,
    rcols: Seq<Abs>,
    rows: Seq<RowPiece>,
    width: int,
    is_rtl: bool,
    span: Span,
    frame: FrameView,
) -> FrameView {
    if rcols.len() == 0 || rows.len() == 0 {
        frame
    } else {
        FrameView { items: spec_region_items(grid, rcols, rows, width, is_rtl, span) + frame.items, ..frame }
    }
}

/// Whether the fills and lines of a region can be rendered.
pub open spec fn spec_region_fits<T>(
    grid: &CellGrid<T>,
    rcols: Seq<Abs>,
    rows: Seq<RowPiece>,
    width: int,
    is_rtl: bool,
) -> bool {
    &&& spec_fills_fit(grid, rcols, rows, is_rtl)
    &&& spec_vlines_fit(grid, rcols, rows, width, is_rtl)
    &&& spec_hlines_fit(grid, rcols, rows, width, is_rtl)
}

/// The fills and lines of a region, to be put behind its contents.
pub fn region_items<T>(
    grid: &CellGrid<T>,
    rcols: &Vec<Abs>,
    rows: &Vec<RowPiece>,
    width: Abs,
    is_rtl: bool,
    span: Span,
) -> (r: Vec<(Point, FrameItem)>)
    requires
        spec_region_fits(grid, rcols@, rows@, width.0 as int, is_rtl),
    ensures
        r@ == spec_region_items(grid, rcols@, rows@, width.0 as int, is_rtl, span),
{
    let mut lines = render_vlines(grid, rcols, rows, width, is_rtl);
    let mut horizontal = render_hlines(grid, rcols, rows, width, is_rtl);
    lines.append(&mut horizontal);
    let sorted = sort_by_thickness(lines);
    let mut items = render_fills(grid, rcols, rows, is_rtl, span);
    let ghost fills = items@;
    let mut i: usize = 0;
    while i < sorted.len()
        invariant
            i <= sorted@.len(),
            items@ == fills + sorted@.take(i as int).map_values(|l: LineItem| spec_line_frame_item(l, span)),
        decreases sorted@.len() - i,
    {
        let l = sorted[i];
        items.push((l.pos, FrameItem::Shape(l.shape, span)));
        proof {
            assert(sorted@.take(i + 1).map_values(|l: LineItem| spec_line_frame_item(l, span))
                =~= sorted@.take(i as int).map_values(|l: LineItem| spec_line_frame_item(l, span)).push(
                spec_line_frame_item(l, span),
            ));
            assert(items@ =~= fills + sorted@.take(i + 1).map_values(
                |l: LineItem| spec_line_frame_item(l, span),
            ));
        }
        i += 1;
    }
    proof {
        assert(sorted@.take(sorted@.len() as int) =~= sorted@);
    }
    items
}

/// Puts the cell fills and the grid lines behind the contents of each
/// region's frame: `rrows` holds the rows laid out in each region, one
/// region per frame of `finished`.
pub fn render_fills_strokes<T>(
    grid: &CellGrid<T>,
    rcols: &Vec<Abs>,
    rrows: &Vec<Vec<RowPiece>>,
    width: Abs,
    is_rtl: bool,
    span: Span,
    finished: &mut Vec<Frame>,
)
    requires
        old(finished)@.len() == rrows@.len(),
        forall|i: int|
            0 <= i < rrows@.len() ==> spec_region_fits(grid, rcols@, (#[trigger] rrows@[i])@, width.0 as int, is_rtl),
    ensures
        final(finished)@.len() == old(finished)@.len(),
        forall|i: int|
            0 <= i < rrows@.len() ==> (#[trigger] final(finished)@[i])@ == spec_rendered(
                grid,
                rcols@,
                rrows@[i]@,
                width.0 as int,
                is_rtl,
                span,
                old(finished)@[i]@,
            ),
{
    let ghost orig = finished@;
    let n = finished.len();
    let mut i: usize = 0;
    while i < n
        invariant
            n == rrows@.len(),
            orig.len() == n,
            finished@.len() == n,
            forall|k: int|
                0 <= k < rrows@.len() ==> spec_region_fits(grid, rcols@, (#[trigger] rrows@[k])@, width.0 as int, is_rtl),
            i <= n,
            forall|k: int|
                0 <= k < i ==> (#[trigger] finished@[k])@ == spec_rendered(
                    grid,
                    rcols@,
                    rrows@[k]@,
                    width.0 as int,
                    is_rtl,
                    span,
                    orig[k]@,
                ),
            forall|k: int| i <= k < n ==> #[trigger] finished@[k] == orig[k],
        decreases n - i,
    {
        let rows = &rrows[i];
        if rcols.len() > 0 && rows.len() > 0 {
            let items = region_items(grid, rcols, rows, width, is_rtl, span);
            let mut frame = Frame::soft(Axes::zero());
            std::mem::swap(&mut frame, &mut finished[i]);
            frame.prepend_multiple(items);
            std::mem::swap(&mut frame, &mut finished[i]);
        }
        i += 1;
    }
}

} // verus!
