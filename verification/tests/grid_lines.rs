use typst::container::Sizing;
use typst::content::Content;
use typst::geom::{Abs, Axes, Sides};
use typst::grid::layout::{Cell, CellGrid, Entry, RowPiece};
use typst::grid::lines::{generate_line_segments, vline_stroke_at_row, Line, LinePosition};
use typst::visualize::Stroke;

fn pt(v: i64) -> Abs {
    Abs::pt(v)
}

fn sample_cell() -> Cell<Content> {
    cell_with_colspan(1)
}

fn cell_with_colspan(colspan: usize) -> Cell<Content> {
    let stroke = Some(Stroke::default());
    Cell {
        body: Content(0),
        fill: None,
        colspan,
        rowspan: 1,
        stroke: Sides { left: stroke, top: stroke, right: stroke, bottom: stroke },
        stroke_overridden: Sides { left: false, top: false, right: false, bottom: false },
        breakable: true,
    }
}

fn sample_grid(gutters: bool) -> CellGrid<Content> {
    const COLS: usize = 4;
    const ROWS: usize = 6;
    let entries = vec![
        // row 0
        Entry::Cell(sample_cell()),
        Entry::Cell(sample_cell()),
        Entry::Cell(cell_with_colspan(2)),
        Entry::Merged { parent: 2 },
        // row 1
        Entry::Cell(sample_cell()),
        Entry::Cell(cell_with_colspan(3)),
        Entry::Merged { parent: 5 },
        Entry::Merged { parent: 5 },
        // row 2
        Entry::Merged { parent: 4 },
        Entry::Cell(sample_cell()),
        Entry::Cell(cell_with_colspan(2)),
        Entry::Merged { parent: 10 },
        // row 3
        Entry::Cell(sample_cell()),
        Entry::Cell(cell_with_colspan(3)),
        Entry::Merged { parent: 13 },
        Entry::Merged { parent: 13 },
        // row 4
        Entry::Cell(sample_cell()),
        Entry::Merged { parent: 13 },
        Entry::Merged { parent: 13 },
        Entry::Merged { parent: 13 },
        // row 5
        Entry::Cell(sample_cell()),
        Entry::Cell(sample_cell()),
        Entry::Cell(cell_with_colspan(2)),
        Entry::Merged { parent: 22 },
    ];
    let cols = vec![Sizing::Auto; COLS];
    let no_rows: Vec<Sizing> = vec![];
    let col_gutter = if gutters { vec![Sizing::Auto; COLS - 1] } else { vec![] };
    let row_gutter = if gutters { vec![Sizing::Auto; ROWS - 1] } else { vec![] };
    CellGrid::new_internal(
        Axes::new(&cols, &no_rows),
        Axes::new(&col_gutter, &row_gutter),
        vec![],
        vec![],
        entries,
    )
}

fn check_vline_splits(
    grid: &CellGrid<Content>,
    rows: &[RowPiece],
    expected_vline_splits: &[Vec<(Stroke, Abs, Abs)>],
    explicit_lines: bool,
) {
    let stroke = Stroke::default();
    for (x, expected_splits) in expected_vline_splits.iter().enumerate() {
        let tracks: Vec<(usize, Abs)> = rows.iter().map(|row| (row.y, row.height)).collect();
        let lines = if explicit_lines {
            vec![
                Line {
                    index: x,
                    start: 0,
                    end: None,
                    stroke: Some(stroke),
                    position: LinePosition::Before,
                },
                Line {
                    index: x,
                    start: 0,
                    end: None,
                    stroke: Some(stroke),
                    position: LinePosition::After,
                },
            ]
        } else {
            vec![]
        };
        assert_eq!(
            expected_splits,
            &generate_line_segments(
                grid,
                &tracks,
                x,
                &lines,
                x == grid.cols.len(),
                vline_stroke_at_row
            ),
        );
    }
}

fn rows(n: usize) -> Vec<RowPiece> {
    (0..n).map(|y| RowPiece { height: pt(1 << y), y }).collect()
}

#[test]
fn test_vline_splitting_without_gutter() {
    let stroke = Stroke::default();
    let grid = sample_grid(false);
    let rows = rows(6);
    let expected_vline_splits = &[
        vec![(stroke, pt(0), pt(1 + 2 + 4 + 8 + 16 + 32))],
        vec![(stroke, pt(0), pt(1 + 2 + 4 + 8 + 16 + 32))],
        // interrupted a few times by colspans
        vec![
            (stroke, pt(0), pt(1)),
            (stroke, pt(1 + 2), pt(4)),
            (stroke, pt(1 + 2 + 4 + 8 + 16), pt(32)),
        ],
        // interrupted every time by colspans
        vec![],
        vec![(stroke, pt(0), pt(1 + 2 + 4 + 8 + 16 + 32))],
    ];
    check_vline_splits(&grid, &rows, expected_vline_splits, false);
}

#[test]
fn test_vline_splitting_with_gutter_and_per_cell_stroke() {
    let stroke = Stroke::default();
    let grid = sample_grid(true);
    let rows = rows(11);
    // Stroke is per-cell so we skip gutter
    let full = vec![
        (stroke, pt(0), pt(1)),
        (stroke, pt(1 + 2), pt(4)),
        (stroke, pt(1 + 2 + 4 + 8), pt(16)),
        (stroke, pt(1 + 2 + 4 + 8 + 16 + 32), pt(64)),
        (stroke, pt(1 + 2 + 4 + 8 + 16 + 32 + 64 + 128), pt(256)),
        (stroke, pt(1 + 2 + 4 + 8 + 16 + 32 + 64 + 128 + 256 + 512), pt(1024)),
    ];
    let interrupted = vec![
        (stroke, pt(0), pt(1)),
        (stroke, pt(1 + 2 + 4 + 8), pt(16)),
        (stroke, pt(1 + 2 + 4 + 8 + 16 + 32 + 64 + 128 + 256 + 512), pt(1024)),
    ];
    let expected_vline_splits = &[
        // left border
        full.clone(),
        // gutter line below
        full.clone(),
        full.clone(),
        // gutter line below
        // the two lines below are interrupted multiple times by colspans
        interrupted.clone(),
        interrupted,
        // gutter line below
        // the two lines below can only cross certain gutter rows, because
        // all non-gutter cells in the following column are merged with
        // cells from the previous column.
        vec![],
        vec![],
        // right border
        full,
    ];
    check_vline_splits(&grid, &rows, expected_vline_splits, false);
}

#[test]
fn test_vline_splitting_with_gutter_and_explicit_vlines() {
    let stroke = Stroke::default();
    let grid = sample_grid(true);
    let rows = rows(11);
    let all = pt(1 + 2 + 4 + 8 + 16 + 32 + 64 + 128 + 256 + 512 + 1024);
    let interrupted = vec![
        (stroke, pt(0), pt(1 + 2)),
        (stroke, pt(1 + 2 + 4), pt(8 + 16 + 32)),
        (stroke, pt(1 + 2 + 4 + 8 + 16 + 32 + 64 + 128 + 256), pt(512 + 1024)),
    ];
    let crossing = vec![
        (stroke, pt(1), pt(2)),
        (stroke, pt(1 + 2 + 4), pt(8)),
        (stroke, pt(1 + 2 + 4 + 8 + 16), pt(32)),
        (stroke, pt(1 + 2 + 4 + 8 + 16 + 32 + 64 + 128 + 256), pt(512)),
    ];
    let expected_vline_splits = &[
        // left border
        vec![(stroke, pt(0), all)],
        // gutter line below
        vec![(stroke, pt(0), all)],
        vec![(stroke, pt(0), all)],
        // gutter line below
        // the two lines below are interrupted multiple times by colspans
        interrupted.clone(),
        interrupted,
        // gutter line below
        // the two lines below can only cross certain gutter rows, because
        // all non-gutter cells in the following column are merged with
        // cells from the previous column.
        crossing.clone(),
        crossing,
        // right border
        vec![(stroke, pt(0), all)],
    ];
    check_vline_splits(&grid, &rows, expected_vline_splits, true);
}
