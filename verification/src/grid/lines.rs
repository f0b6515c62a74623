//! Explicit grid lines and the segments they are drawn in.

use vstd::prelude::*;

use crate::geom::{in_range, Abs};
use crate::grid::layout::CellGrid;
use crate::geom::Smart;
use crate::visualize::{fold_option, spec_fold_option, Stroke};

verus! {

/// An explicit grid line (horizontal or vertical) specified by the user.
#[derive(Clone, Copy, PartialEq, Eq, Structural, Debug)]
pub struct Line {
    /// The index of the track after this line: the row a horizontal line is
    /// above of, or the column right after a vertical line.
    pub index: usize,
    /// The index of the track at which this line starts being drawn.
    pub start: usize,
    /// The index after the last track through which the line is drawn, or
    /// `None` to draw it all the way to the end.
    pub end: Option<usize>,
    /// The line's stroke, or `None` when the line removes the lines before it.
    pub stroke: Option<Stroke>,
    /// The line's position in relation to the track with its index.
    pub position: LinePosition,
}

/// Whether the line should be drawn before or after the track with its index.
#[derive(Clone, Copy, PartialEq, Eq, Structural, Hash, Debug)]
pub enum LinePosition {
    /// The line is drawn before its track (e.g. an hline on top of a row).
    Before,
    /// The line is drawn after its track (e.g. an hline below a row).
    After,
}

/// Two optional strokes combined: two present ones are folded with the
/// first taking priority, otherwise the present one, if any.
pub open spec fn spec_combine(first: Option<Stroke>, second: Option<Stroke>) -> Option<Stroke> {
    match (first, second) {
        (Some(a), Some(b)) => Some(a.spec_fold(b)),
        (Some(a), None) => Some(a),
        (None, b) => b,
    }
}

/// Combines two optional strokes, the first taking priority.
fn combine(first: Option<Stroke>, second: Option<Stroke>) -> (r: Option<Stroke>)
    ensures
        r == spec_combine(first, second),
{
    match (first, second) {
        (Some(a), Some(b)) => Some(a.fold(b)),
        (Some(a), None) => Some(a),
        (None, b) => b,
    }
}

/// The stroke of the right side of a cell.
pub open spec fn right_stroke<T>(c: Option<crate::grid::layout::Cell<T>>) -> Option<Stroke> {
    match c {
        Some(cell) => cell.stroke.right,
        None => None,
    }
}

/// The stroke of the left side of a cell.
pub open spec fn left_stroke<T>(c: Option<crate::grid::layout::Cell<T>>) -> Option<Stroke> {
    match c {
        Some(cell) => cell.stroke.left,
        None => None,
    }
}

/// The stroke of a vline before column `x` at row `y`: `None` where a cell
/// spans across the line; otherwise the line's stroke folded over the
/// adjacent cells' strokes (the right cell's over the left cell's).
pub open spec fn spec_vline_stroke_at_row<T>(
    grid: &CellGrid<T>,
    x: int,
    y: int,
    stroke: Option<Stroke>,
) -> Option<Stroke> {
    let crossed = x != 0 && x != grid.cols@.len() && {
        let (ax, ay) = if grid.has_gutter {
            (x + x % 2, y + y % 2)
        } else {
            (x, y)
        };
        match grid.spec_parent_cell_position(ax, ay) {
            Some((px, py)) => px < x && py <= y,
            None => false,
        }
    };
    if crossed {
        None
    } else {
        let left = if x >= 1 {
            right_stroke(grid.spec_parent_cell(x - 1, y))
        } else {
            None
        };
        let right = if x < grid.cols@.len() {
            left_stroke(grid.spec_parent_cell(x, y))
        } else {
            None
        };
        spec_combine(stroke, spec_combine(right, left))
    }
}

/// Returns the stroke with which to draw a vline right before column `x`
/// when going through row `y`, given the stroke of the user-specified line
/// there, if any. Returns `None` when the vline would cross a cell spanning
/// several columns; otherwise folds the line's stroke over the strokes of
/// the cells to the right and left of it, in that order of priority.
pub fn vline_stroke_at_row<T>(grid: &CellGrid<T>, x: usize, y: usize, stroke: Option<Stroke>) -> (r:
    Option<Stroke>)
    requires
        grid.wf(),
        x <= grid.cols@.len(),
        y < grid.rows@.len(),
        x != 0 && x != grid.cols@.len() ==> grid.spec_parent_cell_position(
            if grid.has_gutter {
                x + x % 2
            } else {
                x as int
            },
            if grid.has_gutter {
                y + y % 2
            } else {
                y as int
            },
        ) is Some,
    ensures
        r == spec_vline_stroke_at_row(grid, x as int, y as int, stroke),
{
    if x != 0 && x != grid.cols.len() {
        let (ax, ay) = if grid.has_gutter {
            (x + x % 2, y + y % 2)
        } else {
            (x, y)
        };
        let parent = grid.parent_cell_position(ax, ay);
        match parent {
            Some(p) => {
                if p.x < x && p.y <= y {
                    return None;
                }
            },
            None => {},
        }
    }
    let left_cell_stroke = if x >= 1 {
        match grid.parent_cell(x - 1, y) {
            Some(cell) => cell.stroke.right,
            None => None,
        }
    } else {
        None
    };
    let right_cell_stroke = if x < grid.cols.len() {
        match grid.parent_cell(x, y) {
            Some(cell) => cell.stroke.left,
            None => None,
        }
    } else {
        None
    };
    let cell_stroke = combine(right_cell_stroke, left_cell_stroke);
    combine(stroke, cell_stroke)
}

/// The stroke of an hline on top of row `y` at column `x`: the line's stroke
/// folded over the strokes of the cells below and above it (the one below
/// over the one above), where a cell counts only if it starts at or before
/// column `x`.
pub open spec fn spec_hline_stroke_at_column<T>(
    grid: &CellGrid<T>,
    y: int,
    x: int,
    stroke: Option<Stroke>,
) -> Option<Stroke> {
    let cell_x = if grid.has_gutter {
        x + x % 2
    } else {
        x
    };
    let top = if y >= 1 {
        match grid.spec_parent_cell_position(cell_x, y - 1) {
            Some((px, py)) => if px <= x {
                top_side_of(grid.spec_entry(px, py))
            } else {
                None
            },
            None => None,
        }
    } else {
        None
    };
    let bottom = if y < grid.rows@.len() {
        match grid.spec_parent_cell_position(cell_x, y) {
            Some((px, py)) => if px <= x {
                bottom_side_of(grid.spec_entry(px, py))
            } else {
                None
            },
            None => None,
        }
    } else {
        None
    };
    spec_combine(stroke, spec_combine(bottom, top))
}

/// The bottom stroke of the cell in an entry.
pub open spec fn top_side_of<T>(e: Option<crate::grid::layout::Entry<T>>) -> Option<Stroke> {
    match e {
        Some(crate::grid::layout::Entry::Cell(c)) => c.stroke.bottom,
        _ => None,
    }
}

/// The top stroke of the cell in an entry.
pub open spec fn bottom_side_of<T>(e: Option<crate::grid::layout::Entry<T>>) -> Option<Stroke> {
    match e {
        Some(crate::grid::layout::Entry::Cell(c)) => c.stroke.top,
        _ => None,
    }
}

/// Returns the stroke with which to draw an hline on top of row `y` when
/// going through column `x`, given the stroke of the user-specified line
/// there, if any: the line's stroke folded over the bottom stroke of the
/// cell above and the top stroke of the cell below, where the cell below
/// takes priority over the one above.
pub fn hline_stroke_at_column<T>(grid: &CellGrid<T>, y: usize, x: usize, stroke: Option<Stroke>) -> (r:
    Option<Stroke>)
    requires
        grid.wf(),
        x < grid.cols@.len(),
        y <= grid.rows@.len(),
    ensures
        r == spec_hline_stroke_at_column(grid, y as int, x as int, stroke),
{
    let cell_x = if grid.has_gutter {
        x + x % 2
    } else {
        x
    };
    let top_cell_stroke = if y >= 1 {
        match grid.parent_cell_position(cell_x, y - 1) {
            Some(p) => {
                if p.x <= x {
                    match grid.cell(p.x, p.y) {
                        Some(cell) => cell.stroke.bottom,
                        None => None,
                    }
                } else {
                    None
                }
            },
            None => None,
        }
    } else {
        None
    };
    let bottom_cell_stroke = if y < grid.rows.len() {
        match grid.parent_cell_position(cell_x, y) {
            Some(p) => {
                if p.x <= x {
                    match grid.cell(p.x, p.y) {
                        Some(cell) => cell.stroke.top,
                        None => None,
                    }
                } else {
                    None
                }
            },
            None => None,
        }
    } else {
        None
    };
    let cell_stroke = combine(bottom_cell_stroke, top_cell_stroke);
    combine(stroke, cell_stroke)
}

/// Whether a user-specified line at the given position covers the given
/// track (a track index counts gutter tracks when there is gutter).
pub open spec fn line_applies(l: Line, track: int, position: LinePosition, has_gutter: bool) -> bool {
    let factor = if has_gutter {
        2int
    } else {
        1int
    };
    l.position == position && match l.end {
        Some(e) => {
            let end = if has_gutter {
                2 * e - 1
            } else {
                e as int
            };
            factor * l.start <= track < end
        },
        None => track >= factor * l.start,
    }
}

/// The stroke of the user-specified lines at a track: the strokes of the
/// lines that cover the track, each later one folded over the earlier ones.
pub open spec fn folded_line_stroke(
    lines: Seq<Line>,
    track: int,
    position: LinePosition,
    has_gutter: bool,
) -> Option<Stroke>
    decreases lines.len(),
{
    if lines.len() == 0 {
        None
    } else {
        let acc = folded_line_stroke(lines.drop_last(), track, position, has_gutter);
        let l = lines.last();
        if line_applies(l, track, position, has_gutter) {
            spec_fold_option(l.stroke, acc)
        } else {
            acc
        }
    }
}

/// The line position to look for among the lines at an index: lines after
/// the previous track when the index is a gutter track (but not the last
/// index), else lines before the track.
pub open spec fn expected_line_position(has_gutter: bool, index: int, is_max_index: bool) -> LinePosition {
    if has_gutter && index % 2 == 1 && !is_max_index {
        LinePosition::After
    } else {
        LinePosition::Before
    }
}

/// The state of splitting a line into segments: the segment being drawn (its
/// stroke, offset and length), how far the tracks went, and the finished
/// segments.
pub struct SegState {
    /// The segment being drawn.
    pub current: Option<(Stroke, int, int)>,
    /// The offset after the tracks seen so far.
    pub offset: int,
    /// The finished segments.
    pub out: Seq<(Stroke, int, int)>,
}

/// One track of the given size, through which the line has the given stroke
/// (`None` where it must not be drawn): the segment is extended when the
/// stroke is unchanged, and finished otherwise.
pub open spec fn seg_step(st: SegState, size: int, stroke: Option<Stroke>) -> SegState {
    match stroke {
        Some(s) => match st.current {
            Some(cur) => if cur.0 == s {
                SegState {
                    current: Some((cur.0, cur.1, cur.2 + size)),
                    offset: st.offset + size,
                    out: st.out,
                }
            } else {
                SegState {
                    current: Some((s, st.offset, size)),
                    offset: st.offset + size,
                    out: st.out.push(cur),
                }
            },
            None => SegState {
                current: Some((s, st.offset, size)),
                offset: st.offset + size,
                out: st.out,
            },
        },
        None => match st.current {
            Some(cur) => SegState { current: None, offset: st.offset + size, out: st.out.push(cur) },
            None => SegState { current: None, offset: st.offset + size, out: st.out },
        },
    }
}

/// The state after going through tracks of the given sizes with the given
/// strokes.
pub open spec fn seg_run(sizes: Seq<int>, strokes: Seq<Option<Stroke>>) -> SegState
    decreases sizes.len(),
{
    if sizes.len() == 0 || strokes.len() < sizes.len() {
        SegState { current: None, offset: 0, out: seq![] }
    } else {
        seg_step(
            seg_run(sizes.drop_last(), strokes.take(sizes.len() - 1)),
            sizes.last(),
            strokes[sizes.len() - 1],
        )
    }
}

/// The segments of a line through tracks of the given sizes with the given
/// strokes: each maximal run of consecutive tracks with the same stroke.
pub open spec fn spec_segments(sizes: Seq<int>, strokes: Seq<Option<Stroke>>) -> Seq<(Stroke, int, int)> {
    let st = seg_run(sizes, strokes);
    match st.current {
        Some(c) => st.out.push(c),
        None => st.out,
    }
}

/// The sizes of tracks.
pub open spec fn track_sizes(tracks: Seq<(usize, Abs)>) -> Seq<int> {
    tracks.map_values(|t: (usize, Abs)| t.1.0 as int)
}

/// The sum of the sizes.
pub open spec fn sum(sizes: Seq<int>) -> int
    decreases sizes.len(),
{
    if sizes.len() == 0 {
        0
    } else {
        sum(sizes.drop_last()) + sizes.last()
    }
}

/// Segments as stroke, offset and length.
pub open spec fn segments_view(segments: Seq<(Stroke, Abs, Abs)>) -> Seq<(Stroke, int, int)> {
    segments.map_values(|s: (Stroke, Abs, Abs)| (s.0, s.1.0 as int, s.2.0 as int))
}

/// The prefix sums of non-negative sizes grow up to the total.
pub proof fn lemma_sum_prefix(sizes: Seq<int>, i: int)
    requires
        0 <= i <= sizes.len(),
        forall|j: int| 0 <= j < sizes.len() ==> sizes[j] >= 0,
    ensures
        0 <= sum(sizes.take(i)) <= sum(sizes),
    decreases sizes.len() - i,
{
    if i < sizes.len() {
        lemma_sum_prefix(sizes, i + 1);
        assert(sizes.take(i + 1).drop_last() =~= sizes.take(i));
    } else {
        assert(sizes.take(i) =~= sizes);
    }
    lemma_sum_nonneg(sizes.take(i));
}

/// The sum of non-negative sizes is non-negative.
proof fn lemma_sum_nonneg(sizes: Seq<int>)
    requires
        forall|j: int| 0 <= j < sizes.len() ==> sizes[j] >= 0,
    ensures
        sum(sizes) >= 0,
    decreases sizes.len(),
{
    if sizes.len() > 0 {
        lemma_sum_nonneg(sizes.drop_last());
    }
}

/// Whether the segment being drawn is the one of the state, ending at the
/// offset.
pub open spec fn current_ok(c: Option<(Stroke, int, int)>, cur: Option<(Stroke, Abs, Abs)>, offset: int) -> bool {
    match c {
        Some(c) => cur matches Some(cur) && cur.0 == c.0 && cur.1.0 == c.1 && cur.2.0 == c.2 && c.1
            + c.2 == offset && c.1 >= 0 && c.2 >= 0,
        None => cur is None,
    }
}

/// Whether a user-specified line covers a track.
fn applies(line: &Line, track: usize, position: LinePosition, has_gutter: bool) -> (r: bool)
    ensures
        r == line_applies(*line, track as int, position, has_gutter),
{
    if line.position != position {
        return false;
    }
    let factor: u128 = if has_gutter {
        2
    } else {
        1
    };
    let low = factor * (line.start as u128);
    match line.end {
        Some(e) => {
            if has_gutter && e == 0 {
                return false;
            }
            let end: u128 = if has_gutter {
                2 * (e as u128) - 1
            } else {
                e as u128
            };
            low <= track as u128 && (track as u128) < end
        },
        None => track as u128 >= low,
    }
}

/// Generates the segments of the lines to be drawn at `index` along the
/// given tracks (pairs of track number and size, in ascending order),
/// folding the user-specified `lines` at that index, and asking
/// `line_stroke_at_track` for the final stroke at each track (`None` where
/// the line must not be drawn, for instance across a merged cell).
/// Consecutive tracks with the same stroke are joined into one segment; each
/// segment is its stroke, its offset from the start and its length.
pub fn generate_line_segments<T, F>(
    grid: &CellGrid<T>,
    tracks: &Vec<(usize, Abs)>,
    index: usize,
    lines: &Vec<Line>,
    is_max_index: bool,
    line_stroke_at_track: F,
) -> (r: Vec<(Stroke, Abs, Abs)>) where
    F: Fn(&CellGrid<T>, usize, usize, Option<Stroke>) -> Option<Stroke>,

    requires
        forall|j: int|
            0 <= j < tracks@.len() ==> line_stroke_at_track.requires(
                (
                    grid,
                    index,
                    (#[trigger] tracks@[j]).0,
                    folded_line_stroke(
                        lines@,
                        tracks@[j].0 as int,
                        expected_line_position(grid.has_gutter, index as int, is_max_index),
                        grid.has_gutter,
                    ),
                ),
            ),
        forall|j: int| 0 <= j < tracks@.len() ==> (#[trigger] tracks@[j]).1.0 >= 0,
        sum(track_sizes(tracks@)) <= i64::MAX,
    ensures
        exists|strokes: Seq<Option<Stroke>>|
            {
                &&& strokes.len() == tracks@.len()
                &&& forall|j: int|
                    0 <= j < tracks@.len() ==> line_stroke_at_track.ensures(
                        (
                            grid,
                            index,
                            tracks@[j].0,
                            folded_line_stroke(
                                lines@,
                                tracks@[j].0 as int,
                                expected_line_position(grid.has_gutter, index as int, is_max_index),
                                grid.has_gutter,
                            ),
                        ),
                        #[trigger] strokes[j],
                    )
                &&& segments_view(r@) == spec_segments(track_sizes(tracks@), strokes)
            },
{
    let position = if grid.has_gutter && index % 2 == 1 && !is_max_index {
        LinePosition::After
    } else {
        LinePosition::Before
    };
    let ghost sizes = track_sizes(tracks@);
    let ghost mut strokes: Seq<Option<Stroke>> = seq![];
    let mut out: Vec<(Stroke, Abs, Abs)> = Vec::new();
    let mut current: Option<(Stroke, Abs, Abs)> = None;
    let mut offset: i64 = 0;
    let mut j: usize = 0;
    proof {
        lemma_sum_prefix(sizes, 0);
        assert(sizes.take(0) =~= Seq::<int>::empty());
        assert(strokes.take(0) =~= Seq::<Option<Stroke>>::empty());
    }
    while j < tracks.len()
        invariant
            j <= tracks@.len(),
            sizes == track_sizes(tracks@),
            position == expected_line_position(grid.has_gutter, index as int, is_max_index),
            forall|k: int|
                0 <= k < tracks@.len() ==> line_stroke_at_track.requires(
                    (
                        grid,
                        index,
                        (#[trigger] tracks@[k]).0,
                        folded_line_stroke(lines@, tracks@[k].0 as int, position, grid.has_gutter),
                    ),
                ),
            forall|k: int| 0 <= k < tracks@.len() ==> (#[trigger] tracks@[k]).1.0 >= 0,
            sum(sizes) <= i64::MAX,
            strokes.len() == j,
            forall|k: int|
                0 <= k < j ==> line_stroke_at_track.ensures(
                    (
                        grid,
                        index,
                        tracks@[k].0,
                        folded_line_stroke(lines@, tracks@[k].0 as int, position, grid.has_gutter),
                    ),
                    #[trigger] strokes[k],
                ),
            seg_run(sizes.take(j as int), strokes).offset == offset,
            seg_run(sizes.take(j as int), strokes).offset == sum(sizes.take(j as int)),
            seg_run(sizes.take(j as int), strokes).out == segments_view(out@),
            current_ok(seg_run(sizes.take(j as int), strokes).current, current, offset as int),
        decreases tracks@.len() - j,
    {
        let (track, size) = tracks[j];
        proof {
            lemma_sum_prefix(sizes, j as int);
            lemma_sum_prefix(sizes, j + 1);
            assert(sizes.take(j + 1).drop_last() =~= sizes.take(j as int));
            assert(sizes[j as int] == size.0);
        }
        let mut folded: Option<Stroke> = None;
        let mut l: usize = 0;
        proof {
            assert(lines@.take(0) =~= Seq::<Line>::empty());
        }
        while l < lines.len()
            invariant
                l <= lines@.len(),
                folded == folded_line_stroke(lines@.take(l as int), track as int, position, grid.has_gutter),
            decreases lines@.len() - l,
        {
            proof {
                assert(lines@.take(l + 1).drop_last() =~= lines@.take(l as int));
            }
            let line = &lines[l];
            if applies(line, track, position, grid.has_gutter) {
                folded = fold_option(line.stroke, folded);
            }
            l += 1;
        }
        proof {
            assert(lines@.take(lines@.len() as int) =~= lines@);
        }
        let s = line_stroke_at_track(grid, index, track, folded);
        let ghost prev_strokes = strokes;
        let ghost prev_state = seg_run(sizes.take(j as int), prev_strokes);
        proof {
            strokes = strokes.push(s);
            assert(strokes.take(j as int) =~= prev_strokes);
            assert(sizes.take(j + 1).last() == size.0);
            assert(seg_run(sizes.take(j + 1), strokes) == seg_step(prev_state, size.0 as int, s));
            assert(sum(sizes.take(j + 1)) == sum(sizes.take(j as int)) + size.0);
        }
        let next_offset = offset + size.0;
        match s {
            Some(stroke) => {
                match current {
                    Some(cur) => {
                        if cur.0 == stroke {
                            current = Some((cur.0, cur.1, Abs(cur.2.0 + size.0)));
                        } else {
                            out.push(cur);
                            current = Some((stroke, Abs(offset), size));
                        }
                    },
                    None => {
                        current = Some((stroke, Abs(offset), size));
                    },
                }
            },
            None => {
                match current {
                    Some(cur) => {
                        out.push(cur);
                        current = None;
                    },
                    None => {},
                }
            },
        }
        offset = next_offset;
        proof {
            assert(segments_view(out@) =~= seg_run(sizes.take(j + 1), strokes).out);
        }
        j += 1;
    }
    match current {
        Some(cur) => {
            out.push(cur);
        },
        None => {},
    }
    proof {
        assert(sizes.take(tracks@.len() as int) =~= sizes);
        assert(segments_view(out@) =~= spec_segments(sizes, strokes));
    }
    out
}

/// Where the cells above and below an hline both give it a stroke, the
/// stroke of the cell below takes priority: every property it sets is kept,
/// and only the properties it leaves unset come from the cell above. A
/// stroke of the line itself takes priority over both.
pub proof fn lemma_hline_prefers_cell_below<T>(
    grid: &CellGrid<T>,
    y: int,
    x: int,
    top: Stroke,
    bottom: Stroke,
    line: Option<Stroke>,
)
    requires
        1 <= y < grid.rows@.len(),
        ({
            let cell_x = if grid.has_gutter {
                x + x % 2
            } else {
                x
            };
            &&& grid.spec_parent_cell_position(cell_x, y - 1) matches Some((px, py)) && px <= x && (
            grid.spec_entry(px, py) matches Some(crate::grid::layout::Entry::Cell(c)) && c.stroke.bottom
                == Some(top))
            &&& grid.spec_parent_cell_position(cell_x, y) matches Some((px, py)) && px <= x && (
            grid.spec_entry(px, py) matches Some(crate::grid::layout::Entry::Cell(c)) && c.stroke.top
                == Some(bottom))
        }),
    ensures
        spec_hline_stroke_at_column(grid, y, x, None) matches Some(r) && {
            &&& r == bottom.spec_fold(top)
            &&& r.thickness == match bottom.thickness {
                Smart::Custom(v) => Smart::Custom(v),
                Smart::Auto => top.thickness,
            }
            &&& r.paint == match bottom.paint {
                Smart::Custom(v) => Smart::Custom(v),
                Smart::Auto => top.paint,
            }
            &&& r.cap == match bottom.cap {
                Smart::Custom(v) => Smart::Custom(v),
                Smart::Auto => top.cap,
            }
            &&& r.join == match bottom.join {
                Smart::Custom(v) => Smart::Custom(v),
                Smart::Auto => top.join,
            }
            &&& r.dash == match bottom.dash {
                Smart::Custom(v) => Smart::Custom(v),
                Smart::Auto => top.dash,
            }
            &&& r.miter_limit == match bottom.miter_limit {
                Smart::Custom(v) => Smart::Custom(v),
                Smart::Auto => top.miter_limit,
            }
        },
        line matches Some(l) ==> spec_hline_stroke_at_column(grid, y, x, line) == Some(
            l.spec_fold(bottom.spec_fold(top)),
        ),
{
}

} // verus!
