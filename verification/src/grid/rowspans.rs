//! Sizes of the rows a cell spans.

use vstd::prelude::*;

use crate::container::Sizing;
use crate::geom::{in_range, spec_scale, Abs};
use crate::grid::layout::{points, Cell, CellGrid, Entry};
use crate::grid::lines::sum;
use crate::grid::tracks::spec_rel_col;
use crate::regions::Regions;

verus! {

/// The raw amounts of a list of sizes.
pub open spec fn raw_sizes(sizes: Seq<Abs>) -> Seq<int> {
    sizes.map_values(|a: Abs| a.0 as int)
}

/// Subtracts an amount from the end of a list of sizes: sizes at the end
/// that are covered by what is left to subtract are removed, and the last
/// remaining size is reduced by what is left.
pub open spec fn spec_subtract_end_sizes(sizes: Seq<int>, subtract: int) -> Seq<int>
    decreases sizes.len(),
{
    if subtract > 0 && sizes.len() > 0 && sizes.last() <= subtract {
        spec_subtract_end_sizes(sizes.drop_last(), subtract - sizes.last())
    } else if subtract > 0 && sizes.len() > 0 {
        sizes.update(sizes.len() - 1, sizes.last() - subtract)
    } else {
        sizes
    }
}

/// Subtracts some size from the end of a vector of sizes; for example,
/// subtracting 5 from [2, 1, 3] results in [1].
pub fn subtract_end_sizes(sizes: &mut Vec<Abs>, subtract: Abs)
    requires
        forall|i: int| 0 <= i < old(sizes)@.len() ==> (#[trigger] old(sizes)@[i]).0 >= 0,
    ensures
        raw_sizes(final(sizes)@) == spec_subtract_end_sizes(raw_sizes(old(sizes)@), subtract.0 as int),
{
    let mut subtract = subtract;
    let ghost target = spec_subtract_end_sizes(raw_sizes(old(sizes)@), subtract.0 as int);
    loop
        invariant
            forall|i: int| 0 <= i < sizes@.len() ==> (#[trigger] sizes@[i]).0 >= 0,
            spec_subtract_end_sizes(raw_sizes(sizes@), subtract.0 as int) == target,
        ensures
            spec_subtract_end_sizes(raw_sizes(sizes@), subtract.0 as int) == target,
            !(subtract.0 > 0 && sizes@.len() > 0 && sizes@[sizes@.len() - 1].0 <= subtract.0),
        decreases sizes@.len(),
    {
        let n = sizes.len();
        if subtract.0 > 0 && n > 0 && sizes[n - 1].0 <= subtract.0 {
            let ghost before = sizes@;
            let last = sizes.pop().unwrap();
            proof {
                assert(raw_sizes(sizes@) =~= raw_sizes(before).drop_last());
            }
            subtract = Abs(subtract.0 - last.0);
        } else {
            break;
        }
    }
    let n = sizes.len();
    if subtract.0 > 0 && n > 0 {
        let last = sizes[n - 1];
        let ghost before = sizes@;
        sizes.set(n - 1, Abs(last.0 - subtract.0));
        proof {
            assert(raw_sizes(sizes@) =~= raw_sizes(before).update(n - 1, last.0 - subtract.0));
        }
    }
}


/// Whether every cell of row `y` spans at least one row and column, and
/// few enough that counting the gutter between them stays in range.
pub open spec fn spec_row_spans_ok<T>(grid: &CellGrid<T>, y: int) -> bool {
    forall|x: int|
        0 <= x < grid.cols@.len() ==> (#[trigger] grid.spec_entry(x, y) matches Some(Entry::Cell(c))
            ==> c.rowspan >= 1 && 2 * c.rowspan <= usize::MAX)
}

/// The number of rows, gutter included, that a cell spans.
pub open spec fn spec_effective_rowspan<T>(grid: &CellGrid<T>, c: Cell<T>) -> int {
    if grid.has_gutter {
        2 * c.rowspan - 1
    } else {
        c.rowspan as int
    }
}

/// The rows that the unbreakable cell at column `x` of row `y` spans, or
/// nothing if there is no such cell.
pub open spec fn spec_unbreakable_span<T>(grid: &CellGrid<T>, x: int, y: int) -> int {
    match grid.spec_entry(x, y) {
        Some(Entry::Cell(c)) => if !c.breakable {
            spec_effective_rowspan(grid, c)
        } else {
            0
        },
        _ => 0,
    }
}

/// The most rows that an unbreakable cell among the first `n` columns of
/// row `y` spans, or nothing if there is none.
pub open spec fn spec_max_unbreakable<T>(grid: &CellGrid<T>, y: int, n: int) -> int
    decreases n,
{
    if n <= 0 {
        0
    } else {
        let rest = spec_max_unbreakable(grid, y, n - 1);
        let here = spec_unbreakable_span(grid, n - 1, y);
        if here > rest {
            here
        } else {
            rest
        }
    }
}

/// The number of rows that the unbreakable cells of row `y` span at most,
/// counting from that row, or nothing if none of its cells is unbreakable.
pub fn check_for_unbreakable_cells<T>(grid: &CellGrid<T>, y: usize) -> (r: usize)
    requires
        grid.wf(),
        y < grid.rows@.len(),
        spec_row_spans_ok(grid, y as int),
    ensures
        r == spec_max_unbreakable(grid, y as int, grid.cols@.len() as int),
{
    let mut best: usize = 0;
    let mut x: usize = 0;
    while x < grid.cols.len()
        invariant
            grid.wf(),
            y < grid.rows@.len(),
            x <= grid.cols@.len(),
            spec_row_spans_ok(grid, y as int),
            best == spec_max_unbreakable(grid, y as int, x as int),
        decreases grid.cols@.len() - x,
    {
        assert(grid.spec_entry(x as int, y as int) matches Some(Entry::Cell(c)) ==> c.rowspan >= 1
            && 2 * c.rowspan <= usize::MAX);
        match grid.cell(x, y) {
            Some(cell) => {
                if !cell.breakable {
                    let span = grid.effective_rowspan_of_cell(cell);
                    if span > best {
                        best = span;
                    }
                }
            },
            None => {},
        }
        x += 1;
    }
    best
}

/// All information needed to layout a single rowspan.
pub struct Rowspan {
    /// First column of this rowspan.
    pub x: usize,
    /// First row of this rowspan.
    pub y: usize,
    /// Amount of rows spanned by the cell at (x, y).
    pub rowspan: usize,
    /// The horizontal offset of this rowspan in all regions.
    pub dx: Abs,
    /// The vertical offset of this rowspan in the first region.
    pub dy: Abs,
    /// The index of the first region this rowspan appears in.
    pub first_region: usize,
    /// The full height in the first region this rowspan appears in, for
    /// relative sizing.
    pub region_full: Abs,
    /// The vertical space available for this rowspan in each region.
    pub heights: Vec<Abs>,
}

/// The columns in visual order: reversed for right-to-left.
pub open spec fn spec_visual_column(n: int, rtl: bool, k: int) -> int {
    if rtl {
        n - 1 - k
    } else {
        k
    }
}

/// The widths of the columns in visual order.
pub open spec fn spec_visual_widths(rcols: Seq<Abs>, rtl: bool) -> Seq<Abs> {
    if rtl {
        rcols.reverse()
    } else {
        rcols
    }
}

/// The rowspans that start in row `y` among the first `k` columns in visual
/// order: each as its column, the rows it spans and its horizontal offset.
pub open spec fn spec_rowspans_found<T>(
    grid: &CellGrid<T>,
    rcols: Seq<Abs>,
    rtl: bool,
    y: int,
    k: int,
) -> Seq<(usize, usize, Abs)>
    decreases k,
{
    if k <= 0 {
        Seq::empty()
    } else {
        let rest = spec_rowspans_found(grid, rcols, rtl, y, k - 1);
        let x = spec_visual_column(rcols.len() as int, rtl, k - 1);
        let dx = Abs(sum(raw_sizes(spec_visual_widths(rcols, rtl)).take(k - 1)) as i64);
        match grid.spec_entry(x, y) {
            Some(Entry::Cell(c)) => if spec_effective_rowspan(grid, c) > 1 {
                rest.push((x as usize, spec_effective_rowspan(grid, c) as usize, dx))
            } else {
                rest
            },
            _ => rest,
        }
    }
}

/// Whether the offsets of the columns in visual order are in the range of
/// lengths.
pub open spec fn spec_offsets_fit(rcols: Seq<Abs>, rtl: bool) -> bool {
    forall|i: int|
        0 <= i <= rcols.len() ==> in_range(
            sum(#[trigger] raw_sizes(spec_visual_widths(rcols, rtl)).take(i)),
        )
}

/// The rowspans that start in row `y`, found in visual column order: each
/// at its column's horizontal offset, yet to be placed.
pub fn check_for_rowspans<T>(grid: &CellGrid<T>, rcols: &Vec<Abs>, is_rtl: bool, y: usize) -> (r: Vec<Rowspan>)
    requires
        grid.wf(),
        rcols@.len() == grid.cols@.len(),
        y < grid.rows@.len(),
        spec_row_spans_ok(grid, y as int),
        spec_offsets_fit(rcols@, is_rtl),
    ensures
        r@.len() == spec_rowspans_found(grid, rcols@, is_rtl, y as int, rcols@.len() as int).len(),
        forall|i: int|
            0 <= i < r@.len() ==> {
                let found = spec_rowspans_found(grid, rcols@, is_rtl, y as int, rcols@.len() as int)[i];
                &&& (#[trigger] r@[i]).x == found.0
                &&& r@[i].rowspan == found.1
                &&& r@[i].dx == found.2
                &&& r@[i].y == y
                &&& r@[i].dy == Abs(0)
                &&& r@[i].first_region == usize::MAX
                &&& r@[i].region_full == Abs(0)
                &&& r@[i].heights@.len() == 0
            },
{
    let n = rcols.len();
    let mut visual: Vec<Abs> = Vec::new();
    let mut j: usize = 0;
    while j < n
        invariant
            j <= n,
            n == rcols@.len(),
            visual@ =~= Seq::new(j as nat, |i: int| spec_visual_widths(rcols@, is_rtl)[i]),
        decreases n - j,
    {
        if is_rtl {
            visual.push(rcols[n - 1 - j]);
        } else {
            visual.push(rcols[j]);
        }
        j += 1;
    }
    assert(visual@ =~= spec_visual_widths(rcols@, is_rtl));
    let offsets = points(&visual);
    let ghost target = spec_rowspans_found(grid, rcols@, is_rtl, y as int, n as int);
    let mut out: Vec<Rowspan> = Vec::new();
    let mut k: usize = 0;
    while k < n
        invariant
            grid.wf(),
            y < grid.rows@.len(),
            spec_row_spans_ok(grid, y as int),
            k <= n,
            n == rcols@.len(),
            n == grid.cols@.len(),
            offsets@.len() == n + 1,
            forall|i: int|
                0 <= i <= n ==> (#[trigger] offsets@[i]).0 == sum(
                    raw_sizes(spec_visual_widths(rcols@, is_rtl)).take(i),
                ),
            spec_offsets_fit(rcols@, is_rtl),
            out@.len() == spec_rowspans_found(grid, rcols@, is_rtl, y as int, k as int).len(),
            forall|i: int|
                0 <= i < out@.len() ==> {
                    let found = spec_rowspans_found(grid, rcols@, is_rtl, y as int, k as int)[i];
                    &&& (#[trigger] out@[i]).x == found.0
                    &&& out@[i].rowspan == found.1
                    &&& out@[i].dx == found.2
                    &&& out@[i].y == y
                    &&& out@[i].dy == Abs(0)
                    &&& out@[i].first_region == usize::MAX
                    &&& out@[i].region_full == Abs(0)
                    &&& out@[i].heights@.len() == 0
                },
        decreases n - k,
    {
        let x = if is_rtl {
            n - 1 - k
        } else {
            k
        };
        let dx = offsets[k];
        assert(in_range(sum(raw_sizes(spec_visual_widths(rcols@, is_rtl)).take(k as int))));
        assert(dx == Abs(sum(raw_sizes(spec_visual_widths(rcols@, is_rtl)).take(k as int)) as i64));
        assert(grid.spec_entry(x as int, y as int) matches Some(Entry::Cell(c)) ==> c.rowspan >= 1
            && 2 * c.rowspan <= usize::MAX);
        let ghost before = out@;
        match grid.cell(x, y) {
            Some(cell) => {
                let rowspan = grid.effective_rowspan_of_cell(cell);
                if rowspan > 1 {
                    out.push(
                        Rowspan {
                            x,
                            y,
                            rowspan,
                            dx,
                            dy: Abs::zero(),
                            first_region: usize::MAX,
                            region_full: Abs::zero(),
                            heights: Vec::new(),
                        },
                    );
                }
            },
            None => {},
        }
        assert(forall|i: int| 0 <= i < before.len() ==> #[trigger] out@[i] == before[i]);
        k += 1;
    }
    out
}


/// Data used to measure a cell in an auto row.
pub struct CellMeasurementData<'l> {
    /// The available width for the cell across all regions.
    pub width: Abs,
    /// The available height for the cell in its first region.
    pub height: Abs,
    /// The backlog of heights available for the cell in later regions; where
    /// it is absent, the custom backlog holds them.
    pub backlog: Option<&'l [Abs]>,
    /// The heights of the regions that a rowspan spans: those of the
    /// regions it already covers, then the current backlog.
    pub custom_backlog: Vec<Abs>,
    /// The full height of the first region of the cell.
    pub full: Abs,
    /// The total height of previous rows spanned by the cell in the current
    /// region (so far).
    pub height_in_this_region: Abs,
    /// The amount of previous regions spanned by the cell.
    pub frames_in_previous_regions: usize,
}

/// The total size of the relative rows among the rows `lo..hi`; other rows
/// count as nothing.
pub open spec fn spec_covered_height(rows: Seq<Sizing>, font_size: Abs, base: Abs, lo: int, hi: int) -> int
    decreases hi - lo,
{
    if hi <= lo {
        0
    } else {
        spec_covered_height(rows, font_size, base, lo, hi - 1) + spec_rel_col(rows[hi - 1], font_size, base)
    }
}

/// Whether resolving the relative rows among the rows `lo..hi` and summing
/// them stays in the range of lengths.
pub open spec fn spec_covered_fits(rows: Seq<Sizing>, font_size: Abs, base: Abs, lo: int, hi: int) -> bool {
    &&& forall|i: int|
        lo <= i < hi ==> (#[trigger] rows[i] matches Sizing::Rel(v) ==> {
            &&& v.abs.spec_at_fits(font_size)
            &&& in_range(spec_scale(v.rel.0 as int, base.0 as int))
            &&& in_range(v.spec_resolve(font_size).spec_relative_to(base))
        })
    &&& forall|k: int| lo <= k <= hi ==> in_range(#[trigger] spec_covered_height(rows, font_size, base, lo, k))
}

/// Whether a rowspan is fully covered by rows in previous regions and the
/// current one: it asks for at most one size, which those rows cover.
pub open spec fn spec_rowspan_covered(sizes: Seq<Abs>, height_in_this_region: Abs) -> bool {
    sizes.len() <= 1 && (sizes.len() == 0 || sizes[0].0 <= height_in_this_region.0)
}

/// The sizes of a rowspan with the height that rows in the current region
/// already cover taken from the first size, down to zero.
pub open spec fn spec_first_uncovered(sizes: Seq<Abs>, height_in_this_region: Abs) -> Seq<Abs> {
    let rest = sizes[0].0 - height_in_this_region.0;
    sizes.update(0, Abs(if rest >= 0 { rest as i64 } else { 0 }))
}

/// The last row that a rowspan spans.
pub open spec fn spec_last_spanned_row(parent_y: int, rowspan: int) -> int {
    parent_y + rowspan - 1
}

/// Whether the auto row must expand by a simulation: the rowspan goes on
/// after it, the grid has gutter, and the rowspan is breakable and goes
/// beyond the unbreakable rows left.
pub open spec fn spec_rowspan_needs_simulation(
    has_gutter: bool,
    breakable: bool,
    auto_row_y: int,
    parent_y: int,
    rowspan: int,
    unbreakable_rows_left: int,
) -> bool {
    let last = spec_last_spanned_row(parent_y, rowspan);
    let effectively_unbreakable = !breakable || auto_row_y + unbreakable_rows_left > last;
    auto_row_y != last && has_gutter && !effectively_unbreakable
}

/// Prepares a rowspan's sizes for the measurement of an auto row that it
/// spans, and returns whether a simulation must tell how much the auto row
/// expands.
///
/// A rowspan that the rows in the previous regions and the current one
/// cover is ignored: its sizes are cleared. Otherwise the height that the
/// rows of the current region cover comes off its first size. Then, where a
/// simulation is needed, the sizes stay so; else the height of the relative
/// rows that the rowspan spans after the auto row comes off the end of its
/// sizes.
pub fn prepare_rowspan_sizes<T>(
    grid: &CellGrid<T>,
    auto_row_y: usize,
    sizes: &mut Vec<Abs>,
    cell: &Cell<T>,
    parent_y: usize,
    rowspan: usize,
    unbreakable_rows_left: usize,
    measurement_data: &CellMeasurementData,
    font_size: Abs,
    base: Abs,
) -> (r: bool)
    requires
        forall|i: int| 0 <= i < old(sizes)@.len() ==> (#[trigger] old(sizes)@[i]).0 >= 0,
        measurement_data.height_in_this_region.0 >= 0,
        rowspan >= 1,
        parent_y + rowspan <= usize::MAX,
        auto_row_y + unbreakable_rows_left <= usize::MAX,
        auto_row_y <= spec_last_spanned_row(parent_y as int, rowspan as int),
        spec_covered_fits(
            grid.rows@,
            font_size,
            base,
            auto_row_y + 1,
            if spec_last_spanned_row(parent_y as int, rowspan as int) + 1 <= grid.rows@.len() {
                spec_last_spanned_row(parent_y as int, rowspan as int) + 1
            } else {
                grid.rows@.len() as int
            },
        ),
    ensures
        ({
            let h = measurement_data.height_in_this_region;
            let last = spec_last_spanned_row(parent_y as int, rowspan as int);
            let hi = if last + 1 <= grid.rows@.len() {
                last + 1
            } else {
                grid.rows@.len() as int
            };
            let simulate = spec_rowspan_needs_simulation(
                grid.has_gutter,
                cell.breakable,
                auto_row_y as int,
                parent_y as int,
                rowspan as int,
                unbreakable_rows_left as int,
            );
            if spec_rowspan_covered(old(sizes)@, h) {
                &&& !r
                &&& final(sizes)@.len() == 0
            } else if simulate {
                &&& r
                &&& final(sizes)@ == spec_first_uncovered(old(sizes)@, h)
            } else {
                &&& !r
                &&& raw_sizes(final(sizes)@) == spec_subtract_end_sizes(
                    raw_sizes(spec_first_uncovered(old(sizes)@, h)),
                    spec_covered_height(grid.rows@, font_size, base, auto_row_y + 1, hi),
                )
            }
        }),
{
    let h = measurement_data.height_in_this_region;
    if sizes.len() <= 1 && (sizes.len() == 0 || sizes[0].0 <= h.0) {
        sizes.clear();
        return false;
    }
    let first = sizes[0];
    let rest = first.0 - h.0;
    sizes.set(0, Abs(if rest >= 0 { rest } else { 0 }));
    let last_spanned_row = parent_y + rowspan - 1;
    let is_effectively_unbreakable_rowspan = !cell.breakable || auto_row_y + unbreakable_rows_left
        > last_spanned_row;
    if auto_row_y != last_spanned_row && sizes.len() > 0 && grid.has_gutter
        && !is_effectively_unbreakable_rowspan {
        return true;
    }
    let ghost rows = grid.rows@;
    let ghost lo = auto_row_y + 1;
    let n = grid.rows.len();
    let hi: usize = if last_spanned_row < n {
        last_spanned_row + 1
    } else {
        n
    };
    let mut covered = Abs::zero();
    let mut i: usize = auto_row_y + 1;
    if i < hi {
        while i < hi
            invariant
                auto_row_y + 1 <= i <= hi <= rows.len(),
                rows == grid.rows@,
                lo == auto_row_y + 1,
                spec_covered_fits(rows, font_size, base, lo, hi as int),
                covered.0 == spec_covered_height(rows, font_size, base, lo, i as int),
            decreases hi - i,
        {
            assert(in_range(spec_covered_height(rows, font_size, base, lo, i + 1)));
            match &grid.rows[i] {
                Sizing::Rel(v) => {
                    assert(rows[i as int] matches Sizing::Rel(v));
                    covered = covered.plus(v.resolve(font_size).relative_to(base));
                },
                _ => {},
            }
            i += 1;
        }
    }
    subtract_end_sizes(sizes, covered);
    false
}


/// The output of the simulation of an unbreakable row group.
pub struct UnbreakableRowGroup {
    /// The rows in this group of unbreakable rows, with their predicted
    /// heights.
    pub rows: Vec<(usize, Abs)>,
    /// The total height of this row group.
    pub height: Abs,
}

impl Default for UnbreakableRowGroup {
    fn default() -> (r: Self)
        ensures
            r.rows@.len() == 0,
            r.height.0 == 0,
    {
        UnbreakableRowGroup { rows: Vec::new(), height: Abs::zero() }
    }
}

/// The total of the heights of some rows.
pub open spec fn spec_heights_sum(rows: Seq<(usize, Abs)>) -> int
    decreases rows.len(),
{
    if rows.len() == 0 {
        0
    } else {
        spec_heights_sum(rows.drop_last()) + rows.last().1.0
    }
}

/// The number of unbreakable rows left at row `y`, with `left` of them left
/// before it: at least as many as the unbreakable cells of the row span.
pub open spec fn spec_rows_left<T>(grid: &CellGrid<T>, y: int, left: int) -> int {
    let here = spec_max_unbreakable(grid, y, grid.cols@.len() as int);
    if here > left {
        here
    } else {
        left
    }
}

/// The number of rows from row `y` on that an unbreakable row group takes,
/// with `left` unbreakable rows left before row `y`.
pub open spec fn spec_group_len<T>(grid: &CellGrid<T>, y: int, left: int) -> int
    decreases grid.rows@.len() - y,
{
    if y < 0 || y >= grid.rows@.len() {
        0
    } else {
        let l = spec_rows_left(grid, y, left);
        if l == 0 {
            0
        } else if l == 1 {
            1
        } else {
            1 + spec_group_len(grid, y + 1, l - 1)
        }
    }
}

/// The number of unbreakable rows left at the row with index `k` of a group
/// that starts at row `first`.
pub open spec fn spec_group_left<T>(grid: &CellGrid<T>, first: int, k: int) -> int
    decreases k,
{
    if k <= 0 {
        spec_rows_left(grid, first, 0)
    } else {
        spec_rows_left(grid, first + k, spec_group_left(grid, first, k - 1) - 1)
    }
}

/// Whether simulating the group from row `y` on, with `left` unbreakable
/// rows left and the rows `so_far` in it, stays in the range of lengths,
/// whatever heights the measurement of auto rows returns.
pub open spec fn spec_group_fits<T, F: Fn(usize, usize, &UnbreakableRowGroup) -> Abs>(
    grid: &CellGrid<T>,
    y: int,
    left: int,
    so_far: Seq<(usize, Abs)>,
    font_size: Abs,
    base: Abs,
    measure_auto: F,
) -> bool
    decreases grid.rows@.len() - y,
{
    if y < 0 || y >= grid.rows@.len() || spec_rows_left(grid, y, left) == 0 {
        true
    } else {
        let l = spec_rows_left(grid, y, left);
        let height = spec_heights_sum(so_far);
        match grid.rows@[y] {
            Sizing::Auto => forall|g: UnbreakableRowGroup, h: Abs|
                g.rows@ == so_far && g.height.0 == height && #[trigger] measure_auto.ensures(
                    (y as usize, l as usize, &g),
                    h,
                ) ==> in_range(height + h.0) && (l == 1 || spec_group_fits(
                    grid,
                    y + 1,
                    l - 1,
                    so_far.push((y as usize, h)),
                    font_size,
                    base,
                    measure_auto,
                )),
            Sizing::Rel(v) => {
                let r = v.spec_resolve(font_size).spec_relative_to(base);
                &&& v.abs.spec_at_fits(font_size)
                &&& in_range(spec_scale(v.rel.0 as int, base.0 as int))
                &&& in_range(r)
                &&& in_range(height + r)
                &&& l == 1 || spec_group_fits(
                    grid,
                    y + 1,
                    l - 1,
                    so_far.push((y as usize, Abs(r as i64))),
                    font_size,
                    base,
                    measure_auto,
                )
            },
            Sizing::Fr(_) => l == 1 || spec_group_fits(
                grid,
                y + 1,
                l - 1,
                so_far.push((y as usize, Abs(0))),
                font_size,
                base,
                measure_auto,
            ),
        }
    }
}

/// Whether `measure_auto` may measure the height `h` for the auto row `y`,
/// with `left` unbreakable rows left, given a group of the rows `so_far`.
pub open spec fn spec_measured<F: Fn(usize, usize, &UnbreakableRowGroup) -> Abs>(
    measure_auto: F,
    y: int,
    left: int,
    so_far: Seq<(usize, Abs)>,
    h: Abs,
) -> bool {
    exists|g: UnbreakableRowGroup|
        g.rows@ == so_far && g.height.0 == spec_heights_sum(so_far) && #[trigger] measure_auto.ensures(
            (y as usize, left as usize, &g),
            h,
        )
}

/// Simulates a group of unbreakable rows, starting with the index of the
/// first row in the group. Keeps adding rows to the group until none have
/// unbreakable cells in common.
///
/// A relative row takes its resolved height, relative to the full height of
/// the first region, and a fractional row none; the height of an auto row is
/// measured by `measure_auto`, which gets the row, the number of unbreakable
/// rows left including it, and the group so far.
pub fn simulate_unbreakable_row_group<T, F: Fn(usize, usize, &UnbreakableRowGroup) -> Abs>(
    grid: &CellGrid<T>,
    first_row: usize,
    regions: &Regions,
    font_size: Abs,
    measure_auto: F,
) -> (r: UnbreakableRowGroup)
    requires
        grid.wf(),
        forall|y: int| first_row <= y < grid.rows@.len() ==> spec_row_spans_ok(grid, y),
        forall|y: usize, l: usize, g: &UnbreakableRowGroup| measure_auto.requires((y, l, g)),
        spec_group_fits(grid, first_row as int, 0, Seq::empty(), font_size, regions.full, measure_auto),
    ensures
        r.rows@.len() == spec_group_len(grid, first_row as int, 0),
        r.height.0 == spec_heights_sum(r.rows@),
        forall|k: int| 0 <= k < r.rows@.len() ==> (#[trigger] r.rows@[k]).0 == first_row + k,
        forall|k: int|
            0 <= k < r.rows@.len() && !(grid.rows@[first_row + k] is Auto) ==> (
            #[trigger] r.rows@[k]).1.0 == spec_rel_col(grid.rows@[first_row + k], font_size, regions.full),
        forall|k: int|
            0 <= k < r.rows@.len() && grid.rows@[first_row + k] is Auto ==> spec_measured(
                measure_auto,
                first_row + k,
                spec_group_left(grid, first_row as int, k),
                r.rows@.take(k),
                (#[trigger] r.rows@[k]).1,
            ),
{
    let mut row_group = UnbreakableRowGroup::default();
    let mut left: usize = 0;
    let base = regions.base().y;
    let n = grid.rows.len();
    let mut y: usize = first_row;
    let mut done = false;
    assert(row_group.rows@ =~= Seq::<(usize, Abs)>::empty());
    while y < n && !done
        invariant
            grid.wf(),
            n == grid.rows@.len(),
            base == regions.full,
            forall|yy: int| first_row <= yy < grid.rows@.len() ==> spec_row_spans_ok(grid, yy),
            forall|yy: usize, l: usize, g: &UnbreakableRowGroup| measure_auto.requires((yy, l, g)),
            first_row <= y,
            !done ==> row_group.rows@.len() == y - first_row,
            !done ==> left == if y == first_row {
                0
            } else {
                spec_group_left(grid, first_row as int, y - first_row - 1) - 1
            },
            !done ==> spec_group_len(grid, first_row as int, 0) == row_group.rows@.len()
                + spec_group_len(grid, y as int, left as int),
            !done ==> spec_group_fits(grid, y as int, left as int, row_group.rows@, font_size, base, measure_auto),
            done ==> spec_group_len(grid, first_row as int, 0) == row_group.rows@.len(),
            row_group.height.0 == spec_heights_sum(row_group.rows@),
            forall|k: int| 0 <= k < row_group.rows@.len() ==> (#[trigger] row_group.rows@[k]).0 == first_row + k,
            forall|k: int|
                0 <= k < row_group.rows@.len() && !(grid.rows@[first_row + k] is Auto) ==> (
                #[trigger] row_group.rows@[k]).1.0 == spec_rel_col(grid.rows@[first_row + k], font_size, base),
            forall|k: int|
                0 <= k < row_group.rows@.len() && grid.rows@[first_row + k] is Auto ==> spec_measured(
                    measure_auto,
                    first_row + k,
                    spec_group_left(grid, first_row as int, k),
                    row_group.rows@.take(k),
                    (#[trigger] row_group.rows@[k]).1,
                ),
        decreases 2 * (n - y) + if done {
            0int
        } else {
            1int
        },
    {
        let additional = check_for_unbreakable_cells(grid, y);
        if additional > left {
            left = additional;
        }
        if left == 0 {
            done = true;
        } else {
            let ghost before = row_group.rows@;
            let ghost k = before.len() as int;
            let ghost snapshot = row_group;
            let height = match &grid.rows[y] {
                Sizing::Rel(v) => v.resolve(font_size).relative_to(base),
                Sizing::Auto => measure_auto(y, left, &row_group),
                Sizing::Fr(_) => Abs::zero(),
            };
            row_group.height = row_group.height.plus(height);
            row_group.rows.push((y, height));
            proof {
                assert(row_group.rows@.drop_last() =~= before);
                assert(row_group.rows@.take(k) =~= before);
                assert forall|j: int| 0 <= j < k implies row_group.rows@.take(j) =~= before.take(j) by {}
                if grid.rows@[y as int] is Auto {
                    assert(spec_measured(measure_auto, y as int, left as int, before, height)) by {
                        assert(snapshot.rows@ == before);
                    }
                }
            }
            left = left - 1;
            if left == 0 {
                done = true;
            } else {
                y += 1;
            }
        }
    }
    row_group
}

} // verus!
