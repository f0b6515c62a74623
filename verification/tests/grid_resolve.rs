use typst::align::{Alignment, HAlignment};
use typst::container::Sizing;
use typst::content::{Content, Func, Span};
use typst::geom::{Axes, NonZeroUsize, Sides, Smart};
use typst::grid::layout::{
    resolve_cell_position, CellGrid, CellProps, Celled, Entry, GridError, GridItem,
    PositionError, ResolveError, ResolvedCelled,
};
use typst::grid::GridCell;
use typst::visualize::{Color, Paint};

fn no_props(_x: usize, _y: usize) -> Result<CellProps, ()> {
    Ok(CellProps {
        fill: None,
        align: Smart::Auto,
        inset: Sides { left: None, top: None, right: None, bottom: None },
        stroke: Sides { left: None, top: None, right: None, bottom: None },
    })
}

fn cols(n: usize) -> Vec<Sizing> {
    vec![Sizing::Auto; n]
}

#[test]
fn resolve_cell_position_auto_skips_occupied() {
    let cells: Vec<Option<u8>> = vec![Some(1), None, Some(2)];
    let mut auto = 0usize;
    assert_eq!(resolve_cell_position(Smart::Auto, Smart::Auto, &cells, &mut auto, 2), Ok(1));
    assert_eq!(auto, 2);
    let mut auto = 2usize;
    assert_eq!(resolve_cell_position(Smart::Auto, Smart::Auto, &cells, &mut auto, 2), Ok(3));
}

#[test]
fn resolve_cell_position_explicit_and_errors() {
    let cells: Vec<Option<u8>> = vec![Some(1), Some(2), None, None];
    let mut auto = 0usize;
    assert_eq!(
        resolve_cell_position(Smart::Custom(1), Smart::Custom(3), &cells, &mut auto, 2),
        Ok(7)
    );
    assert_eq!(auto, 0);
    assert_eq!(
        resolve_cell_position(Smart::Custom(5), Smart::Auto, &cells, &mut auto, 2),
        Err(PositionError::InvalidColumn(5))
    );
    assert_eq!(
        resolve_cell_position(Smart::Auto, Smart::Custom(0), &cells, &mut auto, 2),
        Err(PositionError::RowFull(0))
    );
    assert_eq!(
        resolve_cell_position(Smart::Auto, Smart::Custom(1), &cells, &mut auto, 2),
        Ok(2)
    );
    assert_eq!(
        resolve_cell_position(Smart::Custom(0), Smart::Auto, &cells, &mut auto, 2),
        Ok(2)
    );
}

#[test]
fn grid_resolve_places_cells_row_by_row() {
    let items = vec![
        GridItem::Cell(GridCell::new(Content(1))),
        GridItem::Cell(GridCell::new(Content(2)).with_colspan(NonZeroUsize::new(2).unwrap())),
        GridItem::Cell(GridCell::new(Content(3))),
    ];
    let tracks = cols(3);
    let none: Vec<Sizing> = vec![];
    let grid = CellGrid::resolve(Axes::new(&tracks, &none), Axes::new(&none, &none), items, no_props, Span(1))
        .unwrap();
    assert_eq!(grid.entries.len(), 6);
    assert!(matches!(grid.entries[0], Entry::Cell(_)));
    assert!(matches!(grid.entries[1], Entry::Cell(_)));
    assert!(matches!(grid.entries[2], Entry::Merged { parent: 1 }));
    assert!(matches!(grid.entries[3], Entry::Cell(_)));
    assert_eq!(grid.rows.len(), 2);
    assert!(!grid.has_gutter);
}

#[test]
fn grid_resolve_reports_taken_slot() {
    let items = vec![
        GridItem::Cell(GridCell::new(Content(1)).with_x(Smart::Custom(0)).with_y(Smart::Custom(0))),
        GridItem::Cell(
            GridCell::new(Content(2)).with_x(Smart::Custom(0)).with_y(Smart::Custom(0)).with_span(Span(9)),
        ),
    ];
    let tracks = cols(2);
    let none: Vec<Sizing> = vec![];
    let res = CellGrid::resolve(Axes::new(&tracks, &none), Axes::new(&none, &none), items, no_props, Span(1));
    assert!(matches!(res, Err(ResolveError::Grid(GridError::SlotTaken { x: 0, y: 0, .. }))));
}

#[test]
fn grid_resolve_reports_colspan_overflow() {
    let items = vec![GridItem::Cell(
        GridCell::new(Content(1)).with_colspan(NonZeroUsize::new(3).unwrap()).with_span(Span(4)),
    )];
    let tracks = cols(2);
    let none: Vec<Sizing> = vec![];
    let res = CellGrid::resolve(Axes::new(&tracks, &none), Axes::new(&none, &none), items, no_props, Span(1));
    assert!(matches!(res, Err(ResolveError::Grid(GridError::ColspanExceeds(Span(4))))));
}

#[test]
fn grid_resolve_propagates_property_errors() {
    let items = vec![GridItem::Cell(GridCell::new(Content(1)))];
    let tracks = cols(1);
    let none: Vec<Sizing> = vec![];
    let res = CellGrid::resolve(
        Axes::new(&tracks, &none),
        Axes::new(&none, &none),
        items,
        |_x: usize, _y: usize| -> Result<CellProps, u8> { Err(7) },
        Span(1),
    );
    assert!(matches!(res, Err(ResolveError::Props(7))));
}

#[test]
fn grid_resolve_applies_properties() {
    let red = Paint::Solid(Color::red());
    let items = vec![GridItem::Cell(GridCell::new(Content(1)))];
    let tracks = cols(1);
    let none: Vec<Sizing> = vec![];
    let grid = CellGrid::resolve(
        Axes::new(&tracks, &none),
        Axes::new(&none, &none),
        items,
        |_x: usize, _y: usize| -> Result<CellProps, ()> {
            Ok(CellProps {
                fill: Some(red),
                align: Smart::Custom(Alignment::H(HAlignment::Right)),
                inset: Sides { left: None, top: None, right: None, bottom: None },
                stroke: Sides { left: None, top: None, right: None, bottom: None },
            })
        },
        Span(1),
    )
    .unwrap();
    match &grid.entries[0] {
        Entry::Cell(cell) => assert_eq!(cell.fill, Some(red)),
        _ => panic!("expected a cell"),
    }
}

#[test]
fn celled_values_resolve_by_position() {
    let call = |_f: Func, x: usize, y: usize| -> Result<u32, ()> { Ok((x * 10 + y) as u32) };
    assert_eq!(Celled::Value(5u32).resolve(call, 3, 4), Ok(5));
    assert_eq!(Celled::Func(Func(1)).resolve(call, 3, 4), Ok(34));
    assert_eq!(Celled::Array(vec![1u32, 2, 3]).resolve(call, 4, 0), Ok(2));
    assert_eq!(Celled::<u32>::Array(vec![]).resolve(call, 4, 0), Ok(0));
    assert_eq!(ResolvedCelled(Celled::Array(vec![7u32, 8])).resolve(call, 3, 0), Ok(8));
}
