use typst::container::Sizing;
use typst::content::{Content, Span};
use typst::frame::{Frame, FrameItem};
use typst::geom::{Abs, Axes, Point, Sides, Smart};
use typst::grid::layout::{Cell, CellGrid, Entry, RowPiece};
use typst::grid::lines::{Line, LinePosition};
use typst::grid::render::render_fills;
use typst::grid::strokes::{region_items, render_fills_strokes};
use typst::visualize::{Color, FixedStroke, Geometry, Paint, Shape, Stroke};

fn cell(colspan: usize, rowspan: usize, fill: Option<Paint>) -> Cell<Content> {
    Cell {
        body: Content(0),
        fill,
        colspan,
        rowspan,
        stroke: Sides { left: None, top: None, right: None, bottom: None },
        stroke_overridden: Sides { left: false, top: false, right: false, bottom: false },
        breakable: true,
    }
}

fn red() -> Paint {
    Paint::Solid(Color::red())
}

/// Two columns, two rows: a red cell spanning both rows on the left, an
/// unfilled and a red cell on the right.
fn grid() -> CellGrid<Content> {
    CellGrid {
        entries: vec![
            Entry::Cell(cell(1, 2, Some(red()))),
            Entry::Cell(cell(1, 1, None)),
            Entry::Merged { parent: 0 },
            Entry::Cell(cell(1, 1, Some(red()))),
        ],
        cols: vec![Sizing::Auto, Sizing::Auto],
        rows: vec![Sizing::Auto, Sizing::Auto],
        vlines: vec![],
        hlines: vec![],
        has_gutter: false,
    }
}

fn rect(w: i64, h: i64) -> Shape {
    Geometry::Rect(Axes::new(Abs::pt(w), Abs::pt(h))).filled(red())
}

/// The shapes of the rendered fills with their positions; every fill is a
/// shape with the span it was given.
fn shapes(fills: Vec<(Point, FrameItem)>) -> Vec<(Point, Shape)> {
    let mut out = Vec::new();
    for (pos, item) in fills {
        match item {
            FrameItem::Shape(shape, span) => {
                assert_eq!(span, Span(7));
                out.push((pos, shape));
            }
            _ => panic!("a fill is a shape"),
        }
    }
    out
}

#[test]
fn fills_span_their_rows_and_columns() {
    let rows = vec![RowPiece { height: Abs::pt(10), y: 0 }, RowPiece { height: Abs::pt(20), y: 1 }];
    let rcols = vec![Abs::pt(30), Abs::pt(40)];
    let fills = render_fills(&grid(), &rcols, &rows, false, Span(7));
    assert_eq!(shapes(fills), vec![(Point::zero(), rect(30, 30)), (Point::new(Abs::pt(30), Abs::pt(10)), rect(40, 20))]);
}

#[test]
fn fills_in_right_to_left_and_later_regions() {
    let rows = vec![RowPiece { height: Abs::pt(10), y: 0 }, RowPiece { height: Abs::pt(20), y: 1 }];
    let rcols = vec![Abs::pt(30), Abs::pt(40)];
    let fills = render_fills(&grid(), &rcols, &rows, true, Span(7));
    assert_eq!(shapes(fills), vec![(Point::new(Abs::zero(), Abs::pt(10)), rect(40, 20)), (Point::new(Abs::pt(40), Abs::zero()), rect(30, 30))]);
    // In a region that starts at the second row, the rowspan's fill starts there.
    let later = vec![RowPiece { height: Abs::pt(20), y: 1 }];
    let fills = render_fills(&grid(), &rcols, &later, false, Span(7));
    assert_eq!(shapes(fills), vec![(Point::zero(), rect(30, 20)), (Point::new(Abs::pt(30), Abs::zero()), rect(40, 20))]);
}

fn thick(points: i64) -> Stroke {
    Stroke {
        paint: Smart::Auto,
        thickness: Smart::Custom(Abs::pt(points)),
        cap: Smart::Auto,
        join: Smart::Auto,
        dash: Smart::Auto,
        miter_limit: Smart::Auto,
    }
}

fn line(start: usize, stroke: Stroke) -> Line {
    Line { index: 0, start, end: None, stroke: Some(stroke), position: LinePosition::Before }
}

fn fixed(points: i64) -> FixedStroke {
    FixedStroke::from_pair(Paint::Solid(Color::black()), Abs::pt(points))
}

/// One red cell with a thick line on its left border and a thin one on top.
fn bordered() -> CellGrid<Content> {
    CellGrid {
        entries: vec![Entry::Cell(cell(1, 1, Some(red())))],
        cols: vec![Sizing::Auto],
        rows: vec![Sizing::Auto],
        vlines: vec![vec![line(0, thick(2))], vec![]],
        hlines: vec![vec![line(0, thick(1))]],
        has_gutter: false,
    }
}

#[test]
fn fills_then_lines_by_thickness_go_behind_the_contents() {
    let grid = bordered();
    let rcols = vec![Abs::pt(30)];
    let rrows = vec![vec![RowPiece { height: Abs::pt(10), y: 0 }]];
    let mut finished = vec![Frame::soft(Axes::new(Abs::pt(30), Abs::pt(10)))];
    render_fills_strokes(&grid, &rcols, &rrows, Abs::pt(30), false, Span(7), &mut finished);
    let items = finished[0].items();
    assert_eq!(items.len(), 3);
    // The fill comes first, below the lines.
    match &items[0] {
        (pos, FrameItem::Shape(shape, _)) => {
            assert_eq!(*pos, Point::zero());
            assert_eq!(*shape, rect(30, 10));
        }
        _ => panic!("a fill is a shape"),
    }
    // The thinner top line is drawn before the thicker left line, though
    // vertical lines are collected first.
    match &items[1] {
        (pos, FrameItem::Shape(shape, _)) => {
            assert_eq!(*pos, Point::new(Abs(-500), Abs::zero()));
            assert_eq!(*shape, Geometry::Line(Point::new(Abs::pt(31), Abs::zero())).stroked(fixed(1)));
        }
        _ => panic!("a line is a shape"),
    }
    match &items[2] {
        (pos, FrameItem::Shape(shape, _)) => {
            assert_eq!(*pos, Point::new(Abs::zero(), Abs::pt(-1)));
            assert_eq!(*shape, Geometry::Line(Point::new(Abs::zero(), Abs::pt(12))).stroked(fixed(2)));
        }
        _ => panic!("a line is a shape"),
    }
}

#[test]
fn right_to_left_lines_are_mirrored() {
    let grid = bordered();
    let rcols = vec![Abs::pt(30)];
    let rows = vec![RowPiece { height: Abs::pt(10), y: 0 }];
    let items = region_items(&grid, &rcols, &rows, Abs::pt(30), true, Span(7));
    assert_eq!(items.len(), 3);
    match &items[1] {
        (pos, FrameItem::Shape(_, _)) => assert_eq!(*pos, Point::new(Abs(-500), Abs::zero())),
        _ => panic!("a line is a shape"),
    }
    match &items[2] {
        (pos, FrameItem::Shape(_, _)) => assert_eq!(*pos, Point::new(Abs::pt(30), Abs::pt(-1))),
        _ => panic!("a line is a shape"),
    }
}

#[test]
fn strokes_without_thickness_default_to_one_black_point() {
    let s = Stroke {
        paint: Smart::Auto,
        thickness: Smart::Auto,
        cap: Smart::Auto,
        join: Smart::Auto,
        dash: Smart::Auto,
        miter_limit: Smart::Auto,
    };
    assert_eq!(s.unwrap_or_default(), fixed(1));
}
