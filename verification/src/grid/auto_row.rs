//! The measurement of an auto row from the measurements of its cells.

use vstd::prelude::*;

use crate::container::Sizing;
use crate::geom::Abs;
use crate::grid::layout::{Cell, CellGrid, Entry};
use crate::grid::rowspans::{
    prepare_rowspan_sizes, raw_sizes, spec_covered_fits, spec_covered_height, spec_first_uncovered,
    spec_last_spanned_row, spec_rowspan_covered, spec_rowspan_needs_simulation,
    spec_subtract_end_sizes, CellMeasurementData,
};

verus! {

/// The last auto row among the rows `lo..hi`.
pub open spec fn spec_last_auto_in(rows: Seq<Sizing>, lo: int, hi: int) -> Option<int>
    decreases hi - lo,
{
    if hi <= lo {
        None
    } else if rows[hi - 1] is Auto {
        Some(hi - 1)
    } else {
        spec_last_auto_in(rows, lo, hi - 1)
    }
}

/// The number of tracks, gutter included, that a cell spans downwards.
pub open spec fn spec_rowspan_of<T>(grid: &CellGrid<T>, c: Cell<T>) -> int {
    if grid.has_gutter {
        2 * c.rowspan - 1
    } else {
        c.rowspan as int
    }
}

/// The cell measured for the auto row `y` in column `x`, with its position
/// and rowspan: the cell that starts in that column (a colspan is measured
/// once), and of a rowspan only in the last auto row that it spans.
pub open spec fn spec_measured_cell<T>(grid: &CellGrid<T>, x: int, y: int) -> Option<(int, int, int)> {
    match grid.spec_parent_cell_position(x, y) {
        Some((px, py)) => if px != x {
            None
        } else {
            match grid.spec_entry(px, py) {
                Some(Entry::Cell(c)) => {
                    let rs = spec_rowspan_of(grid, c);
                    let hi = if py + rs <= grid.rows@.len() {
                        py + rs
                    } else {
                        grid.rows@.len() as int
                    };
                    if rs > 1 && spec_last_auto_in(grid.rows@, py, hi) != Some(y) {
                        None
                    } else {
                        Some((px, py, rs))
                    }
                },
                _ => None,
            }
        },
        None => None,
    }
}

/// The cells measured for the auto row `y` among the first `n` columns, in
/// column order.
pub open spec fn spec_auto_row_cells<T>(grid: &CellGrid<T>, y: int, n: int) -> Seq<(int, int, int)>
    decreases n,
{
    if n <= 0 {
        seq![]
    } else {
        match spec_measured_cell(grid, n - 1, y) {
            Some(c) => spec_auto_row_cells(grid, y, n - 1).push(c),
            None => spec_auto_row_cells(grid, y, n - 1),
        }
    }
}

/// The frames of a cell's measurement from the auto row's region on.
pub open spec fn spec_frames_here(data: CellMeasurementData, frames: Seq<(Abs, bool)>) -> Seq<(Abs, bool)> {
    if data.frames_in_previous_regions <= frames.len() {
        frames.subrange(data.frames_in_previous_regions as int, frames.len() as int)
    } else {
        seq![]
    }
}

/// Whether a cell's measurement makes the auto row skip its region: the
/// row may be skipped and is breakable, and the cell's frame in this region
/// is empty while a later one is not.
pub open spec fn spec_skips(frames: Seq<(Abs, bool)>, can_skip: bool, breakable: bool) -> bool {
    &&& can_skip
    &&& breakable
    &&& frames.len() >= 1
    &&& frames[0].1
    &&& exists|j: int| 1 <= j < frames.len() && !(#[trigger] frames[j]).1
}

/// The heights of frames.
pub open spec fn spec_heights(frames: Seq<(Abs, bool)>) -> Seq<Abs> {
    frames.map_values(|f: (Abs, bool)| f.0)
}

/// Heights merged into the resolved ones: each the larger of the two where
/// both have one, and the rest of the longer list.
pub open spec fn spec_merge(resolved: Seq<int>, sizes: Seq<int>) -> Seq<int> {
    let n = if resolved.len() >= sizes.len() {
        resolved.len()
    } else {
        sizes.len()
    };
    Seq::new(
        n,
        |i: int|
            if i < resolved.len() && i < sizes.len() {
                if resolved[i] >= sizes[i] {
                    resolved[i]
                } else {
                    sizes[i]
                }
            } else if i < resolved.len() {
                resolved[i]
            } else {
                sizes[i]
            },
    )
}

/// What measuring the auto row so far gave: whether a cell made the row
/// skip its region, the resolved heights, and the rowspans whose sizes
/// wait for a simulation (their position, rowspan and sizes).
pub struct AutoRowState {
    /// Whether a cell made the row skip its region.
    pub skipped: bool,
    /// The resolved heights.
    pub resolved: Seq<int>,
    /// The rowspans that wait for a simulation.
    pub pending: Seq<(int, int, Seq<int>)>,
}

/// A rowspan's sizes, prepared for the auto row as
/// [`prepare_rowspan_sizes`] states, and whether it waits for a simulation.
pub open spec fn spec_prepared<T>(
    grid: &CellGrid<T>,
    y: int,
    c: Cell<T>,
    py: int,
    rs: int,
    unbreakable_rows_left: int,
    h: Abs,
    sizes: Seq<Abs>,
    font_size: Abs,
    base: Abs,
) -> (bool, Seq<int>) {
    let last = spec_last_spanned_row(py, rs);
    let hi = if last + 1 <= grid.rows@.len() {
        last + 1
    } else {
        grid.rows@.len() as int
    };
    if spec_rowspan_covered(sizes, h) {
        (false, seq![])
    } else if spec_rowspan_needs_simulation(grid.has_gutter, c.breakable, y, py, rs, unbreakable_rows_left) {
        (true, raw_sizes(spec_first_uncovered(sizes, h)))
    } else {
        (
            false,
            spec_subtract_end_sizes(
                raw_sizes(spec_first_uncovered(sizes, h)),
                spec_covered_height(grid.rows@, font_size, base, y + 1, hi),
            ),
        )
    }
}

/// One cell's measurement taken into the auto row's state.
pub open spec fn spec_auto_row_step<T>(
    grid: &CellGrid<T>,
    y: int,
    can_skip: bool,
    unbreakable_rows_left: int,
    font_size: Abs,
    base: Abs,
    st: AutoRowState,
    cell: (int, int, int),
    out: (CellMeasurementData, Vec<(Abs, bool)>),
) -> AutoRowState {
    let breakable = unbreakable_rows_left == 0;
    let here = spec_frames_here(out.0, out.1@);
    if st.skipped || spec_skips(here, can_skip, breakable) {
        AutoRowState { skipped: true, ..st }
    } else if cell.2 > 1 {
        match grid.spec_entry(cell.0, cell.1) {
            Some(Entry::Cell(c)) => {
                let (simulate, sizes) = spec_prepared(
                    grid,
                    y,
                    c,
                    cell.1,
                    cell.2,
                    unbreakable_rows_left,
                    out.0.height_in_this_region,
                    spec_heights(here),
                    font_size,
                    base,
                );
                if simulate {
                    AutoRowState { pending: st.pending.push((cell.1, cell.2, sizes)), ..st }
                } else {
                    AutoRowState { resolved: spec_merge(st.resolved, sizes), ..st }
                }
            },
            _ => st,
        }
    } else {
        AutoRowState { resolved: spec_merge(st.resolved, raw_sizes(spec_heights(here))), ..st }
    }
}

/// The auto row's state after the measurements of the cells.
pub open spec fn spec_auto_row_run<T>(
    grid: &CellGrid<T>,
    y: int,
    can_skip: bool,
    unbreakable_rows_left: int,
    font_size: Abs,
    base: Abs,
    cells: Seq<(int, int, int)>,
    outs: Seq<(CellMeasurementData, Vec<(Abs, bool)>)>,
) -> AutoRowState
    decreases outs.len(),
{
    if outs.len() == 0 || cells.len() < outs.len() {
        AutoRowState { skipped: false, resolved: seq![], pending: seq![] }
    } else {
        spec_auto_row_step(
            grid,
            y,
            can_skip,
            unbreakable_rows_left,
            font_size,
            base,
            spec_auto_row_run(
                grid,
                y,
                can_skip,
                unbreakable_rows_left,
                font_size,
                base,
                cells,
                outs.drop_last(),
            ),
            cells[outs.len() - 1],
            outs.last(),
        )
    }
}

/// Whether the auto row `y` can be measured: the grid is well formed, the
/// row is one of its rows, the cells' spans fit with the rows in an index, the relative rows resolve to lengths
/// whose sums are lengths, and the unbreakable rows left fit in an index.
pub open spec fn spec_auto_row_fits<T>(
    grid: &CellGrid<T>,
    y: int,
    unbreakable_rows_left: int,
    font_size: Abs,
    base: Abs,
) -> bool {
    &&& grid.wf()
    &&& y < grid.rows@.len()
    &&& y + unbreakable_rows_left <= usize::MAX
    &&& forall|i: int|
        0 <= i < grid.entries@.len() ==> (#[trigger] grid.entries@[i] matches Entry::Cell(c) ==> {
            &&& 1 <= c.rowspan
            &&& 2 * c.rowspan + grid.rows@.len() <= usize::MAX
        })
    &&& forall|lo: int, hi: int|
        0 <= lo <= hi <= grid.rows@.len() ==> #[trigger] spec_covered_fits(grid.rows@, font_size, base, lo, hi)
}

/// The last auto row among the rows `lo..hi`.
fn last_auto_in<T>(grid: &CellGrid<T>, lo: usize, hi: usize) -> (r: Option<usize>)
    requires
        lo <= hi <= grid.rows@.len(),
    ensures
        match spec_last_auto_in(grid.rows@, lo as int, hi as int) {
            Some(i) => r == Some(i as usize),
            None => r is None,
        },
{
    let mut i = hi;
    while i > lo
        invariant
            lo <= i <= hi <= grid.rows@.len(),
            spec_last_auto_in(grid.rows@, lo as int, hi as int) == spec_last_auto_in(grid.rows@, lo as int, i as int),
        decreases i,
    {
        match grid.rows[i - 1] {
            Sizing::Auto => {
                return Some(i - 1);
            },
            _ => {},
        }
        i -= 1;
    }
    None
}

/// Merges heights into the resolved ones: each becomes the larger of the
/// two, and heights past the resolved ones are added.
fn merge_sizes(resolved: &mut Vec<Abs>, sizes: &Vec<Abs>)
    ensures
        raw_sizes(final(resolved)@) == spec_merge(raw_sizes(old(resolved)@), raw_sizes(sizes@)),
{
    let ghost before = raw_sizes(resolved@);
    let mut i: usize = 0;
    while i < sizes.len()
        invariant
            i <= sizes@.len(),
            before == raw_sizes(old(resolved)@),
            resolved@.len() == if before.len() >= i {
                before.len() as int
            } else {
                i as int
            },
            forall|k: int|
                0 <= k < resolved@.len() ==> (#[trigger] resolved@[k]).0 == if k < i {
                    spec_merge(before, raw_sizes(sizes@))[k]
                } else {
                    before[k]
                },
        decreases sizes@.len() - i,
    {
        if i < resolved.len() {
            if resolved[i].0 < sizes[i].0 {
                resolved.set(i, sizes[i]);
            }
        } else {
            resolved.push(sizes[i]);
        }
        i += 1;
    }
    proof {
        assert(raw_sizes(resolved@) =~= spec_merge(before, raw_sizes(sizes@)));
    }
}

/// The heights of the frames from the auto row's region on, and whether
/// the cell makes the row skip its region.
fn frames_here(data: &CellMeasurementData, frames: &Vec<(Abs, bool)>, can_skip: bool, breakable: bool) -> (r: (
    Vec<Abs>,
    bool,
))
    ensures
        r.0@ == spec_heights(spec_frames_here(*data, frames@)),
        r.1 == spec_skips(spec_frames_here(*data, frames@), can_skip, breakable),
{
    let ghost here = spec_frames_here(*data, frames@);
    let start = data.frames_in_previous_regions;
    let mut sizes: Vec<Abs> = Vec::new();
    if start > frames.len() {
        proof {
            assert(spec_heights(here) =~= Seq::<Abs>::empty());
        }
        return (sizes, false);
    }
    let mut later_content = false;
    let mut i: usize = start;
    while i < frames.len()
        invariant
            start <= i <= frames@.len(),
            start == data.frames_in_previous_regions,
            here == frames@.subrange(start as int, frames@.len() as int),
            sizes@ == spec_heights(here).take(i - start),
            later_content == exists|j: int| 1 <= j < i - start && !(#[trigger] here[j]).1,
        decreases frames@.len() - i,
    {
        let f = frames[i];
        proof {
            assert(here[i - start] == f);
        }
        sizes.push(f.0);
        if i > start && !f.1 {
            later_content = true;
        }
        proof {
            assert(sizes@ =~= spec_heights(here).take(i + 1 - start));
            if !later_content {
                assert forall|j: int| 1 <= j < i + 1 - start implies (#[trigger] here[j]).1 by {
                    if j < i - start {
                    } else {
                        assert(here[j] == f);
                    }
                }
            } else if i > start && !f.1 {
                assert(!here[i - start].1);
            }
        }
        i += 1;
    }
    proof {
        assert(spec_heights(here).take(frames@.len() - start) =~= spec_heights(here));
    }
    let skips = can_skip && breakable && frames.len() > start && frames[start].1 && later_content;
    proof {
        if frames.len() > start {
            assert(here[0] == frames@[start as int]);
        }
    }
    (sizes, skips)
}

/// Measures an auto row from the measurements of its cells: `measure`
/// gives, for the position of a cell, its measurement data and its frames
/// (their heights and whether each is empty), and the engine's work stays
/// there. A cell that starts in another column, or a rowspan in any but the
/// last auto row it spans, is not measured. Returns `None` when a cell's
/// frame in this region is empty while a later one is not and the row may
/// be skipped; otherwise the resolved heights of the row in this and the
/// following regions, and the rowspans whose sizes wait for a simulation.
pub fn measure_auto_row<'l, T, M>(
    grid: &CellGrid<T>,
    y: usize,
    can_skip: bool,
    unbreakable_rows_left: usize,
    font_size: Abs,
    base: Abs,
    measure: M,
) -> (r: Option<(Vec<Abs>, Vec<(usize, usize, Vec<Abs>)>)>) where
    M: Fn(usize, usize) -> (CellMeasurementData<'l>, Vec<(Abs, bool)>),

    requires
        spec_auto_row_fits(grid, y as int, unbreakable_rows_left as int, font_size, base),
        forall|x: usize, py: usize| measure.requires((x, py)),
        forall|x: usize, py: usize, out: (CellMeasurementData<'l>, Vec<(Abs, bool)>)|
            measure.ensures((x, py), out) ==> {
                &&& out.0.height_in_this_region.0 >= 0
                &&& forall|j: int| 0 <= j < out.1@.len() ==> (#[trigger] out.1@[j]).0.0 >= 0
            },
    ensures
        exists|outs: Seq<(CellMeasurementData<'l>, Vec<(Abs, bool)>)>|
            #![trigger outs.len()]
            {
                let cells = spec_auto_row_cells(grid, y as int, grid.cols@.len() as int);
                let st = spec_auto_row_run(
                    grid,
                    y as int,
                    can_skip,
                    unbreakable_rows_left as int,
                    font_size,
                    base,
                    cells,
                    outs,
                );
                &&& outs.len() <= cells.len()
                &&& forall|k: int|
                    0 <= k < outs.len() ==> measure.ensures(
                        (cells[k].0 as usize, cells[k].1 as usize),
                        #[trigger] outs[k],
                    )
                &&& match r {
                    None => st.skipped,
                    Some((resolved, pending)) => {
                        &&& outs.len() == cells.len()
                        &&& !st.skipped
                        &&& raw_sizes(resolved@) == st.resolved
                        &&& pending@.len() == st.pending.len()
                        &&& forall|k: int|
                            0 <= k < pending@.len() ==> {
                                &&& (#[trigger] pending@[k]).0 == st.pending[k].0
                                &&& pending@[k].1 == st.pending[k].1
                                &&& raw_sizes(pending@[k].2@) == st.pending[k].2
                            }
                    },
                }
            },
{
    let breakable = unbreakable_rows_left == 0;
    let n = grid.cols.len();
    let mut resolved: Vec<Abs> = Vec::new();
    let mut pending: Vec<(usize, usize, Vec<Abs>)> = Vec::new();
    let ghost mut outs: Seq<(CellMeasurementData<'l>, Vec<(Abs, bool)>)> = seq![];
    let mut x: usize = 0;
    while x < n
        invariant
            spec_auto_row_fits(grid, y as int, unbreakable_rows_left as int, font_size, base),
            forall|a: usize, b: usize| measure.requires((a, b)),
            forall|a: usize, b: usize, out: (CellMeasurementData<'l>, Vec<(Abs, bool)>)|
                measure.ensures((a, b), out) ==> {
                    &&& out.0.height_in_this_region.0 >= 0
                    &&& forall|j: int| 0 <= j < out.1@.len() ==> (#[trigger] out.1@[j]).0.0 >= 0
                },
            breakable == (unbreakable_rows_left == 0),
            n == grid.cols@.len(),
            x <= n,
            outs.len() == spec_auto_row_cells(grid, y as int, x as int).len(),
            forall|k: int|
                0 <= k < outs.len() ==> measure.ensures(
                    (
                        spec_auto_row_cells(grid, y as int, x as int)[k].0 as usize,
                        spec_auto_row_cells(grid, y as int, x as int)[k].1 as usize,
                    ),
                    #[trigger] outs[k],
                ),
            ({
                let st = spec_auto_row_run(
                    grid,
                    y as int,
                    can_skip,
                    unbreakable_rows_left as int,
                    font_size,
                    base,
                    spec_auto_row_cells(grid, y as int, x as int),
                    outs,
                );
                &&& !st.skipped
                &&& raw_sizes(resolved@) == st.resolved
                &&& pending@.len() == st.pending.len()
                &&& forall|k: int|
                    0 <= k < pending@.len() ==> {
                        &&& (#[trigger] pending@[k]).0 == st.pending[k].0
                        &&& pending@[k].1 == st.pending[k].1
                        &&& raw_sizes(pending@[k].2@) == st.pending[k].2
                    }
            }),
        decreases n - x,
    {
        let ghost cells = spec_auto_row_cells(grid, y as int, x as int);
        let ghost next = spec_auto_row_cells(grid, y as int, x + 1);
        proof {
            lemma_cells_prefix(grid, y as int, x as int, x + 1);
            lemma_run_prefix(grid, y as int, can_skip, unbreakable_rows_left as int, font_size, base, cells, next, outs);
        }
        let parent = grid.parent_cell_position(x, y);
        match parent {
            None => {
                assert(next == cells);
                x += 1;
                continue;
            },
            Some(p) => {
                if p.x != x {
                    assert(next == cells);
                    x += 1;
                    continue;
                }
                let cell = match grid.cell(p.x, p.y) {
                    Some(c) => c,
                    None => {
                        assert(next == cells);
                        x += 1;
                        continue;
                    },
                };
                proof {
                    let idx = grid.spec_entry_index(p.x as int, p.y as int)->Some_0;
                    assert(grid.entries@[idx] matches Entry::Cell(_));
                }
                let rowspan = grid.effective_rowspan_of_cell(cell);
                let measured = if rowspan > 1 {
                    let hi = if p.y + rowspan <= grid.rows.len() {
                        p.y + rowspan
                    } else {
                        grid.rows.len()
                    };
                    let last = last_auto_in(grid, p.y, hi);
                    proof {
                        lemma_last_auto_in_range(grid.rows@, p.y as int, hi as int);
                    }
                    match last {
                        Some(l) => l == y,
                        None => false,
                    }
                } else {
                    true
                };
                proof {
                    assert(spec_rowspan_of(grid, *cell) == rowspan);
                    if rowspan > 1 {
                        let hi = if p.y + rowspan <= grid.rows@.len() {
                            p.y + rowspan
                        } else {
                            grid.rows@.len() as int
                        };
                        assert(measured == (spec_last_auto_in(grid.rows@, p.y as int, hi) == Some(y as int)));
                        if measured {
                            lemma_last_auto_in_range(grid.rows@, p.y as int, hi);
                            assert(y <= spec_last_spanned_row(p.y as int, rowspan as int));
                        }
                    }
                }
                if !measured {
                    assert(next == cells);
                    x += 1;
                    continue;
                }
                let ghost cell_triple = (p.x as int, p.y as int, rowspan as int);
                proof {
                    assert(spec_measured_cell(grid, x as int, y as int) == Some(cell_triple));
                    assert(next == cells.push(cell_triple));
                }
                let (data, frames) = measure(p.x, p.y);
                let ghost out = (data, frames);
                let ghost old_outs = outs;
                proof {
                    outs = outs.push(out);
                    assert(outs.drop_last() =~= old_outs);
                }
                let (mut sizes, skips) = frames_here(&data, &frames, can_skip, breakable);
                if skips {
                    proof {
                        assert(spec_auto_row_run(
                            grid,
                            y as int,
                            can_skip,
                            unbreakable_rows_left as int,
                            font_size,
                            base,
                            next,
                            outs,
                        ).skipped);
                        lemma_cells_prefix(grid, y as int, x + 1, n as int);
                        lemma_run_prefix(grid, y as int, can_skip, unbreakable_rows_left as int, font_size, base, next, spec_auto_row_cells(grid, y as int, n as int), outs);
                    }
                    return None;
                }
                if rowspan > 1 {
                    let simulate = prepare_rowspan_sizes(
                        grid,
                        y,
                        &mut sizes,
                        cell,
                        p.y,
                        rowspan,
                        unbreakable_rows_left,
                        &data,
                        font_size,
                        base,
                    );
                    if simulate {
                        pending.push((p.y, rowspan, sizes));
                    } else {
                        merge_sizes(&mut resolved, &sizes);
                    }
                } else {
                    merge_sizes(&mut resolved, &sizes);
                }
                x += 1;
            },
        }
    }
    Some((resolved, pending))
}

/// The cells measured among fewer columns come first among those measured
/// among more.
proof fn lemma_cells_prefix<T>(grid: &CellGrid<T>, y: int, a: int, b: int)
    requires
        0 <= a <= b,
    ensures
        spec_auto_row_cells(grid, y, b).len() >= spec_auto_row_cells(grid, y, a).len(),
        spec_auto_row_cells(grid, y, b).take(spec_auto_row_cells(grid, y, a).len() as int)
            == spec_auto_row_cells(grid, y, a),
    decreases b - a,
{
    let ca = spec_auto_row_cells(grid, y, a);
    if a < b {
        lemma_cells_prefix(grid, y, a, b - 1);
        let p = spec_auto_row_cells(grid, y, b - 1);
        let q = spec_auto_row_cells(grid, y, b);
        assert(q.take(ca.len() as int) =~= p.take(ca.len() as int));
    } else {
        assert(ca.take(ca.len() as int) =~= ca);
    }
}

/// The run over measurements depends only on the cells measured so far.
proof fn lemma_run_prefix<T>(
    grid: &CellGrid<T>,
    y: int,
    can_skip: bool,
    unbreakable_rows_left: int,
    font_size: Abs,
    base: Abs,
    cells: Seq<(int, int, int)>,
    longer: Seq<(int, int, int)>,
    outs: Seq<(CellMeasurementData, Vec<(Abs, bool)>)>,
)
    requires
        outs.len() <= cells.len() <= longer.len(),
        longer.take(cells.len() as int) == cells,
    ensures
        spec_auto_row_run(grid, y, can_skip, unbreakable_rows_left, font_size, base, cells, outs)
            == spec_auto_row_run(grid, y, can_skip, unbreakable_rows_left, font_size, base, longer, outs),
    decreases outs.len(),
{
    if outs.len() > 0 {
        lemma_run_prefix(grid, y, can_skip, unbreakable_rows_left, font_size, base, cells, longer, outs.drop_last());
        assert(cells[outs.len() - 1] == longer.take(cells.len() as int)[outs.len() - 1]);
    }
}

/// The last auto row among the rows `lo..hi` is one of them.
proof fn lemma_last_auto_in_range(rows: Seq<Sizing>, lo: int, hi: int)
    ensures
        spec_last_auto_in(rows, lo, hi) matches Some(i) ==> lo <= i < hi,
    decreases hi - lo,
{
    if hi > lo {
        lemma_last_auto_in_range(rows, lo, hi - 1);
    }
}

} // verus!
