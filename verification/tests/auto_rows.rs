use typst::container::Sizing;
use typst::content::Content;
use typst::geom::{Abs, Sides};
use typst::grid::auto_row::measure_auto_row;
use typst::grid::layout::{Cell, CellGrid, Entry};
use typst::grid::rowspans::CellMeasurementData;

fn cell() -> Cell<Content> {
    Cell {
        body: Content(0),
        fill: None,
        colspan: 1,
        rowspan: 1,
        stroke: Sides { left: None, top: None, right: None, bottom: None },
        stroke_overridden: Sides { left: false, top: false, right: false, bottom: false },
        breakable: true,
    }
}

fn two_cells() -> CellGrid<Content> {
    CellGrid {
        entries: vec![Entry::Cell(cell()), Entry::Cell(cell())],
        cols: vec![Sizing::Auto, Sizing::Auto],
        rows: vec![Sizing::Auto],
        vlines: vec![],
        hlines: vec![],
        has_gutter: false,
    }
}

fn data() -> CellMeasurementData<'static> {
    CellMeasurementData {
        width: Abs::pt(10),
        height: Abs::pt(100),
        backlog: None,
        custom_backlog: vec![],
        full: Abs::pt(100),
        height_in_this_region: Abs::zero(),
        frames_in_previous_regions: 0,
    }
}

#[test]
fn auto_row_takes_the_tallest_cell_in_each_region() {
    let grid = two_cells();
    let measured = measure_auto_row(&grid, 0, false, 0, Abs::pt(10), Abs::pt(100), |x, _y| {
        if x == 0 {
            (data(), vec![(Abs::pt(10), false), (Abs::pt(5), false)])
        } else {
            (data(), vec![(Abs::pt(7), false)])
        }
    });
    match measured {
        Some((resolved, pending)) => {
            assert_eq!(resolved, vec![Abs::pt(10), Abs::pt(5)]);
            assert!(pending.is_empty());
        }
        None => panic!("the row is not skipped"),
    }
}

#[test]
fn auto_row_with_an_empty_first_frame_skips_its_region() {
    let grid = two_cells();
    let frames = |_x: usize, _y: usize| (data(), vec![(Abs::zero(), true), (Abs::pt(8), false)]);
    assert!(measure_auto_row(&grid, 0, true, 0, Abs::pt(10), Abs::pt(100), frames).is_none());
    // Without leave to skip, the empty frame just counts as a height.
    match measure_auto_row(&grid, 0, false, 0, Abs::pt(10), Abs::pt(100), frames) {
        Some((resolved, _)) => assert_eq!(resolved, vec![Abs::zero(), Abs::pt(8)]),
        None => panic!("the row may not be skipped"),
    }
}
