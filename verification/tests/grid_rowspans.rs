use typst::container::Sizing;
use typst::content::Content;
use typst::geom::{Abs, Axes, Em, Length, Ratio, Rel, Sides};
use typst::grid::layout::{Cell, CellGrid, Entry};
use typst::grid::rowspans::{
    check_for_rowspans, check_for_unbreakable_cells, prepare_rowspan_sizes,
    simulate_unbreakable_row_group, subtract_end_sizes, CellMeasurementData, UnbreakableRowGroup,
};
use typst::regions::Regions;

fn cell(rowspan: usize, breakable: bool) -> Cell<Content> {
    Cell {
        body: Content(0),
        fill: None,
        colspan: 1,
        rowspan,
        stroke: Sides { left: None, top: None, right: None, bottom: None },
        stroke_overridden: Sides { left: false, top: false, right: false, bottom: false },
        breakable,
    }
}

fn grid() -> CellGrid<Content> {
    let entries = vec![
        Entry::Cell(cell(2, false)),
        Entry::Cell(cell(1, true)),
        Entry::Cell(cell(2, true)),
        Entry::Merged { parent: 0 },
        Entry::Cell(cell(1, true)),
        Entry::Merged { parent: 2 },
    ];
    let cols = vec![Sizing::Auto; 3];
    let rows: Vec<Sizing> = vec![];
    let none: Vec<Sizing> = vec![];
    CellGrid::new_internal(Axes::new(&cols, &rows), Axes::new(&none, &none), vec![], vec![], entries)
}

fn pts(v: &[i64]) -> Vec<Abs> {
    v.iter().map(|p| Abs::pt(*p)).collect()
}

#[test]
fn unbreakable_cells_keep_their_rows_together() {
    let g = grid();
    assert_eq!(check_for_unbreakable_cells(&g, 0), 2);
    assert_eq!(check_for_unbreakable_cells(&g, 1), 0);
}

#[test]
fn rowspans_are_found_in_visual_order() {
    let g = grid();
    let found = check_for_rowspans(&g, &pts(&[10, 20, 30]), false, 0);
    assert_eq!(found.len(), 2);
    assert_eq!((found[0].x, found[0].rowspan, found[0].dx), (0, 2, Abs::zero()));
    assert_eq!((found[1].x, found[1].rowspan, found[1].dx), (2, 2, Abs::pt(30)));
    assert_eq!(found[1].first_region, usize::MAX);
    assert!(found[1].heights.is_empty());
    let rtl = check_for_rowspans(&g, &pts(&[10, 20, 30]), true, 0);
    assert_eq!((rtl[0].x, rtl[0].dx), (2, Abs::zero()));
    assert_eq!((rtl[1].x, rtl[1].dx), (0, Abs::pt(50)));
    assert!(check_for_rowspans(&g, &pts(&[10, 20, 30]), false, 1).is_empty());
}

#[test]
fn subtracting_from_the_end_of_sizes() {
    let mut sizes = pts(&[2, 1, 3]);
    subtract_end_sizes(&mut sizes, Abs::pt(5));
    assert_eq!(sizes, pts(&[1]));
    let mut sizes = pts(&[2, 1, 3]);
    subtract_end_sizes(&mut sizes, Abs::pt(1));
    assert_eq!(sizes, pts(&[2, 1, 2]));
}

fn rel(ratio: i64, pt: i64) -> Sizing {
    Sizing::Rel(Rel { rel: Ratio(ratio), abs: Length { abs: Abs::pt(pt), em: Em(0) } })
}

fn rows_grid(has_gutter: bool) -> CellGrid<Content> {
    CellGrid {
        entries: vec![],
        cols: vec![Sizing::Auto],
        rows: vec![Sizing::Auto, rel(0, 10), Sizing::Fr(typst::geom::Fr(1)), rel(500_000, 5), Sizing::Auto],
        vlines: vec![],
        hlines: vec![],
        has_gutter,
    }
}

fn measurement(height_in_this_region: i64) -> CellMeasurementData<'static> {
    CellMeasurementData {
        width: Abs::pt(50),
        height: Abs::pt(100),
        backlog: None,
        custom_backlog: vec![],
        full: Abs::pt(100),
        height_in_this_region: Abs::pt(height_in_this_region),
        frames_in_previous_regions: 0,
    }
}

fn prepare(g: &CellGrid<Content>, sizes: &mut Vec<Abs>, breakable: bool, rowspan: usize, h: i64) -> bool {
    prepare_rowspan_sizes(g, 0, sizes, &cell(rowspan, breakable), 0, rowspan, 0, &measurement(h), Abs::pt(10), Abs::pt(100))
}

#[test]
fn covered_rowspans_are_ignored() {
    let g = rows_grid(false);
    let mut sizes = pts(&[30]);
    assert!(!prepare(&g, &mut sizes, true, 4, 40));
    assert!(sizes.is_empty());
    let mut sizes = vec![];
    assert!(!prepare(&g, &mut sizes, true, 4, 0));
    assert!(sizes.is_empty());
}

#[test]
fn rowspan_sizes_lose_what_later_rows_cover() {
    let g = rows_grid(false);
    let mut sizes = pts(&[30, 20, 40]);
    assert!(!prepare(&g, &mut sizes, true, 4, 10));
    assert_eq!(sizes, pts(&[15]));
    let mut sizes = pts(&[5, 30]);
    assert!(!prepare(&g, &mut sizes, true, 2, 10));
    assert_eq!(sizes, pts(&[0, 20]));
}

#[test]
fn breakable_rowspans_with_gutter_need_a_simulation() {
    let g = rows_grid(true);
    let mut sizes = pts(&[30, 20, 40]);
    assert!(prepare(&g, &mut sizes, true, 4, 10));
    assert_eq!(sizes, pts(&[20, 20, 40]));
    let mut sizes = pts(&[30, 20, 40]);
    assert!(!prepare(&g, &mut sizes, false, 4, 10));
    assert_eq!(sizes, pts(&[15]));
}

fn sim_regions() -> Regions<'static> {
    Regions {
        size: Axes::new(Abs::pt(100), Abs::pt(60)),
        expand: Axes::new(false, false),
        full: Abs::pt(80),
        backlog: &[],
        last: None,
    }
}

#[test]
fn unbreakable_group_measures_its_auto_rows() {
    let g = grid();
    let measure = |y: usize, left: usize, group: &UnbreakableRowGroup| {
        Abs::pt(10 * (y as i64 + 1) + group.rows.len() as i64 + 100 * left as i64)
    };
    let group = simulate_unbreakable_row_group(&g, 0, &sim_regions(), Abs::pt(10), measure);
    assert_eq!(group.rows, vec![(0, Abs::pt(210)), (1, Abs::pt(121))]);
    assert_eq!(group.height, Abs::pt(331));
    let none = simulate_unbreakable_row_group(&g, 1, &sim_regions(), Abs::pt(10), measure);
    assert!(none.rows.is_empty());
    assert_eq!(none.height, Abs::zero());
}

#[test]
fn unbreakable_group_resolves_fixed_rows() {
    let g = CellGrid {
        entries: vec![
            Entry::Cell(cell(3, false)),
            Entry::Merged { parent: 0 },
            Entry::Merged { parent: 0 },
            Entry::Cell(cell(1, true)),
        ],
        cols: vec![Sizing::Auto],
        rows: vec![rel(0, 10), rel(500_000, 0), Sizing::Fr(typst::geom::Fr(1)), rel(0, 7)],
        vlines: vec![],
        hlines: vec![],
        has_gutter: false,
    };
    let group = simulate_unbreakable_row_group(&g, 0, &sim_regions(), Abs::pt(10), |_: usize, _: usize, _: &UnbreakableRowGroup| Abs::pt(999));
    assert_eq!(group.rows, vec![(0, Abs::pt(10)), (1, Abs::pt(40)), (2, Abs::zero())]);
    assert_eq!(group.height, Abs::pt(50));
}
