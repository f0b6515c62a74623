use typst::align::FixedAlignment;
use typst::container::Spacing;
use typst::frame::{Frame, FrameKind};
use typst::geom::{Abs, Axes, Axis, Dir, Em, Fr, Length, Point, Ratio, Rel};
use typst::regions::{Region, Regions};
use typst::stack::{Gen, StackLayouter};

fn size(w: i64, h: i64) -> Axes<Abs> {
    Axes::new(Abs::pt(w), Abs::pt(h))
}

fn pt(x: i64, y: i64) -> Point {
    Point::new(Abs::pt(x), Abs::pt(y))
}

fn positions(frame: &Frame) -> Vec<Point> {
    frame.items().iter().map(|(p, _)| *p).collect()
}

fn abs_spacing(points: i64) -> Spacing {
    Spacing::Rel(Rel { rel: Ratio(0), abs: Length { abs: Abs::pt(points), em: Em(0) } })
}

fn start_end(x: FixedAlignment) -> Axes<FixedAlignment> {
    Axes::new(x, FixedAlignment::Start)
}

fn page(w: i64, h: i64) -> Regions<'static> {
    Regions::from_region(Region::new(size(w, h), Axes::new(false, false)))
}

#[test]
fn stack_new_disables_expansion_along_the_axis() {
    let regions = Regions::from_region(Region::new(size(100, 200), Axes::new(true, true)));
    let s = StackLayouter::new(Dir::LTR, regions, Abs::pt(10));
    assert_eq!(s.axis, Axis::X);
    assert_eq!(s.regions.expand, Axes::new(false, true));
    assert_eq!(s.expand, Axes::new(true, true));
    assert_eq!(s.initial, size(100, 200));
    assert_eq!(s.used, Gen::zero());
    assert!(s.items.is_empty());
}

#[test]
fn stack_places_blocks_one_after_the_other() {
    let mut s = StackLayouter::new(Dir::TTB, page(100, 200), Abs::pt(10));
    s.finish_if_full();
    s.layout_block(vec![Frame::hard(size(40, 30))], start_end(FixedAlignment::End));
    s.layout_spacing(abs_spacing(5));
    s.finish_if_full();
    s.layout_block(vec![Frame::hard(size(60, 20))], start_end(FixedAlignment::Start));
    assert_eq!(s.regions.size, size(100, 145));
    assert_eq!(s.used, Gen::new(Abs::pt(60), Abs::pt(55)));
    let frames = s.finish();
    assert_eq!(frames.len(), 1);
    assert_eq!(frames[0].size(), size(60, 55));
    assert_eq!(frames[0].kind(), FrameKind::Hard);
    assert_eq!(positions(&frames[0]), vec![pt(20, 0), pt(0, 35)]);
}

#[test]
fn stack_fractional_spacing_fills_the_region() {
    let mut s = StackLayouter::new(Dir::TTB, page(100, 200), Abs::pt(10));
    s.layout_block(vec![Frame::hard(size(10, 30))], start_end(FixedAlignment::Start));
    s.layout_spacing(Spacing::Fr(Fr(1_000_000)));
    s.layout_block(vec![Frame::hard(size(10, 20))], start_end(FixedAlignment::Start));
    let frames = s.finish();
    assert_eq!(frames[0].size(), size(10, 200));
    assert_eq!(positions(&frames[0]), vec![pt(0, 0), pt(0, 180)]);
}

#[test]
fn stack_right_to_left_starts_at_the_right() {
    let mut s = StackLayouter::new(Dir::RTL, page(100, 50), Abs::pt(10));
    s.layout_block(vec![Frame::hard(size(30, 10))], start_end(FixedAlignment::Start));
    s.layout_block(vec![Frame::hard(size(20, 10))], start_end(FixedAlignment::Start));
    let frames = s.finish();
    assert_eq!(frames[0].size(), size(50, 10));
    assert_eq!(positions(&frames[0]), vec![pt(20, 0), pt(0, 0)]);
}

#[test]
fn stack_spacing_is_limited_by_the_remaining_space() {
    let mut s = StackLayouter::new(Dir::TTB, page(100, 50), Abs::pt(10));
    s.layout_spacing(abs_spacing(80));
    assert_eq!(s.regions.size, size(100, 0));
    assert_eq!(s.used.main, Abs::pt(50));
}

#[test]
fn stack_em_spacing_uses_the_font_size() {
    let mut s = StackLayouter::new(Dir::TTB, page(100, 50), Abs::pt(10));
    s.layout_spacing(Spacing::Rel(Rel {
        rel: Ratio(0),
        abs: Length { abs: Abs::zero(), em: Em(1_500_000) },
    }));
    assert_eq!(s.used.main, Abs::pt(15));
}

#[test]
fn stack_fragment_spreads_over_regions() {
    let heights = [Abs::pt(40)];
    let regions = Regions {
        size: size(100, 40),
        expand: Axes::new(false, false),
        full: Abs::pt(40),
        backlog: &heights,
        last: None,
    };
    let mut s = StackLayouter::new(Dir::TTB, regions, Abs::pt(10));
    s.layout_block(
        vec![Frame::hard(size(10, 40)), Frame::hard(size(10, 15))],
        start_end(FixedAlignment::Start),
    );
    assert_eq!(s.finished.len(), 1);
    assert_eq!(s.finished[0].size(), size(10, 40));
    assert_eq!(s.regions.size, size(100, 25));
    let frames = s.finish();
    assert_eq!(frames.len(), 2);
    assert_eq!(frames[1].size(), size(10, 15));
}
