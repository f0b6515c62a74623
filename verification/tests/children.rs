use typst::align::{Alignment, FixedAlignment, HAlignment, VAlignment};
use typst::collect::{BlockChild, LineChild, PlacedChild};
use typst::container::BlockElem;
use typst::content::{Content, Destination, StyleChain, Tag};
use typst::flow::Mode;
use typst::frame::{Frame, FrameItem};
use typst::geom::{Abs, Axes, Em, Length, Point, Ratio, Rel, Smart};
use typst::operands::EvalMode;
use typst::place::PlaceElem;
use typst::regions::Region;
use typst::transform::{layout_move, scale_region_size, MoveElem, ScaleAmount, ScaleElem, ScaleError};

fn size(w: i64, h: i64) -> Axes<Abs> {
    Axes::new(Abs::pt(w), Abs::pt(h))
}

fn tagged(w: i64, h: i64) -> Frame {
    let mut f = Frame::soft(size(w, h));
    f.push(Point::zero(), FrameItem::Tag(Tag(1)));
    f
}

fn start() -> Axes<FixedAlignment> {
    Axes::new(FixedAlignment::Start, FixedAlignment::Start)
}

#[test]
fn block_child_post_processes_its_frames() {
    let child = BlockChild {
        align: start(),
        sticky: false,
        rootable: false,
        elem: BlockElem::new(),
        styles: StyleChain { dests: vec![Destination(5)], hidden: false },
    };
    let frames = child.layout(vec![tagged(10, 20), Frame::soft(size(3, 4))]);
    assert_eq!(frames.len(), 2);
    assert_eq!(frames[0].items().len(), 2);
    assert!(matches!(frames[0].items()[1], (p, FrameItem::Link(Destination(5), s)) if p == Point::zero() && s == size(10, 20)));
    assert!(frames[1].items().is_empty());
}

#[test]
fn placed_child_is_centered_by_default() {
    let child = PlacedChild {
        float: false,
        clearance: Abs::zero(),
        delta: Axes::new(Rel { rel: Ratio(0), abs: Abs::zero() }, Rel { rel: Ratio(0), abs: Abs::zero() }),
        align_x: FixedAlignment::Start,
        align_y: Smart::Auto,
        elem: PlaceElem::new(Content(1)),
        styles: StyleChain { dests: vec![], hidden: false },
        alignment: Smart::Auto,
    };
    assert_eq!(child.body_alignment(), Alignment::H(HAlignment::Center));
    let region = child.region(size(30, 40));
    assert_eq!(region, Region::new(size(30, 40), Axes::new(false, false)));
    let frame = child.layout(tagged(5, 5));
    assert_eq!(frame.items().len(), 1);
}

#[test]
fn line_child_holds_its_frame() {
    let line = LineChild { frame: Frame::soft(size(10, 12)), align: start(), need: Abs::pt(12) };
    assert_eq!(line.frame.height(), Abs::pt(12));
    assert_eq!(line.need, Abs::pt(12));
}

#[test]
fn move_translates_relative_to_the_region() {
    let mut elem = MoveElem::new(Content(2));
    elem.dx = Rel { rel: Ratio(500_000), abs: Length { abs: Abs::pt(1), em: Em(0) } };
    elem.dy = Rel { rel: Ratio(0), abs: Length { abs: Abs::zero(), em: Em(2_000_000) } };
    let frame = layout_move(&elem, tagged(10, 10), Abs::pt(5), Region::new(size(40, 60), Axes::new(false, false)));
    assert_eq!(frame.items()[0].0, Point::new(Abs::pt(21), Abs::pt(10)));
    let still = layout_move(&MoveElem::new(Content(2)), tagged(10, 10), Abs::pt(5), Region::new(size(40, 60), Axes::new(false, false)));
    assert_eq!(still.items()[0].0, Point::zero());
}

#[test]
fn scale_defaults_to_the_original_size() {
    let e = ScaleElem::new(Content(3));
    assert_eq!(e.x, Smart::Custom(ScaleAmount::Ratio(Ratio::one())));
    assert_eq!(e.y, Smart::Custom(ScaleAmount::Ratio(Ratio::one())));
    assert_eq!(e.origin, Alignment::Both(HAlignment::Center, VAlignment::Horizon));
    assert!(!e.reflow);
}

#[test]
fn modes_are_distinct() {
    assert_ne!(EvalMode::Code, EvalMode::Markup);
    assert_ne!(EvalMode::Markup, EvalMode::Math);
    assert_ne!(Mode::PackStart, Mode::Even);
}

#[test]
fn scale_factors_resolve_against_the_body() {
    let e = ScaleElem::new(Content(3));
    assert_eq!(e.resolve_scale(Abs::pt(10), size(10, 40)), Ok(Axes::new(Ratio::one(), Ratio::one())));
    let mut e = ScaleElem::new(Content(3));
    e.x = Smart::Custom(ScaleAmount::Length(Length { abs: Abs::pt(20), em: Em(0) }));
    e.y = Smart::Auto;
    assert_eq!(e.resolve_scale(Abs::pt(10), size(10, 40)), Ok(Axes::new(Ratio(2_000_000), Ratio(2_000_000))));
    e.x = Smart::Auto;
    assert_eq!(e.resolve_scale(Abs::pt(10), size(10, 40)), Err(ScaleError::BothAuto));
    assert_eq!(ScaleError::BothAuto.message(), "x and y cannot both be auto");
}

#[test]
fn scaled_regions_shrink_by_the_factor() {
    let s = scale_region_size(size(100, 60), Axes::new(Ratio(2_000_000), Ratio(500_000)));
    assert_eq!(s, size(50, 120));
    let s = scale_region_size(size(100, 60), Axes::new(Ratio(-2_000_000), Ratio(1_000_000)));
    assert_eq!(s, size(50, 60));
}
