use typst::align::FixedAlignment;
use typst::content::{Destination, Label, Location, Path, Span, StyleChain, Tag, TextItem};
use typst::frame::{Destinations, Frame, FrameItem, FrameKind, GroupItem};
use typst::geom::{Abs, Axes, Point, Ratio, Rel, Sides};
use typst::transform::Transform;
use typst::visualize::{Color, Geometry, Paint, Shape};

fn size(w: i64, h: i64) -> Axes<Abs> {
    Axes::new(Abs::pt(w), Abs::pt(h))
}

fn pt(x: i64, y: i64) -> Point {
    Point::new(Abs::pt(x), Abs::pt(y))
}

fn text(id: u64) -> FrameItem {
    FrameItem::Text(TextItem(id))
}

fn positions(frame: &Frame) -> Vec<Point> {
    frame.items().iter().map(|(p, _)| *p).collect()
}

fn is_text(item: &FrameItem, id: u64) -> bool {
    matches!(item, FrameItem::Text(t) if *t == TextItem(id))
}

#[test]
fn new_frames_are_empty() {
    let f = Frame::hard(size(10, 20));
    assert!(f.is_empty());
    assert_eq!(f.kind(), FrameKind::Hard);
    assert_eq!(Frame::soft(size(1, 1)).kind(), FrameKind::Soft);
    assert_eq!(f.width(), Abs::pt(10));
    assert_eq!(f.height(), Abs::pt(20));
    assert_eq!(f.layer(), 0);
    assert!(FrameKind::default().is_soft());
    assert!(FrameKind::Hard.is_hard());
}

#[test]
fn baseline_defaults_to_bottom() {
    let mut f = Frame::soft(size(10, 20));
    assert!(!f.has_baseline());
    assert_eq!(f.baseline(), Abs::pt(20));
    assert_eq!(f.descent(), Abs::zero());
    f.set_baseline(Abs::pt(15));
    assert!(f.has_baseline());
    assert_eq!(f.ascent(), Abs::pt(15));
    assert_eq!(f.descent(), Abs::pt(5));
}

#[test]
fn setters_change_one_property() {
    let mut f = Frame::soft(size(1, 2));
    f.set_size(size(3, 4));
    assert_eq!(f.size(), size(3, 4));
    *f.size_mut() = size(5, 6);
    assert_eq!(f.size(), size(5, 6));
    f.set_kind(FrameKind::Hard);
    assert_eq!(f.kind(), FrameKind::Hard);
    let g = f.with_kind(FrameKind::Soft);
    assert_eq!(g.kind(), FrameKind::Soft);
}

#[test]
fn push_appends_and_prepend_puts_in_background() {
    let mut f = Frame::soft(size(10, 10));
    f.push(pt(1, 1), text(1));
    f.push(pt(2, 2), text(2));
    f.prepend(pt(0, 0), text(0));
    f.insert(1, pt(5, 5), text(5));
    assert_eq!(f.layer(), 4);
    let ids: Vec<bool> = vec![
        is_text(&f.items()[0].1, 0),
        is_text(&f.items()[1].1, 5),
        is_text(&f.items()[2].1, 1),
        is_text(&f.items()[3].1, 2),
    ];
    assert_eq!(ids, vec![true, true, true, true]);
    f.push_multiple(vec![(pt(3, 3), text(3))]);
    f.prepend_multiple(vec![(pt(4, 4), text(4)), (pt(6, 6), text(6))]);
    assert_eq!(positions(&f)[0], pt(4, 4));
    assert_eq!(positions(&f)[1], pt(6, 6));
    assert_eq!(positions(&f)[6], pt(3, 3));
    f.clear();
    assert!(f.is_empty());
}

#[test]
fn translate_moves_items_and_baseline() {
    let mut f = Frame::soft(size(10, 10));
    f.set_baseline(Abs::pt(8));
    f.push(pt(1, 2), text(1));
    f.translate(pt(3, -1));
    assert_eq!(positions(&f), vec![pt(4, 1)]);
    assert_eq!(f.baseline(), Abs::pt(7));
    f.translate(pt(-3, 1));
    assert_eq!(positions(&f), vec![pt(1, 2)]);
    assert_eq!(f.baseline(), Abs::pt(8));
}

#[test]
fn resize_aligns_content() {
    let mut f = Frame::soft(size(10, 10));
    f.push(pt(0, 0), text(1));
    let offset = f.resize(size(20, 30), Axes::new(FixedAlignment::Center, FixedAlignment::End));
    assert_eq!(offset, pt(5, 20));
    assert_eq!(f.size(), size(20, 30));
    assert_eq!(positions(&f), vec![pt(5, 20)]);
    let same = f.resize(size(20, 30), Axes::new(FixedAlignment::End, FixedAlignment::End));
    assert_eq!(same, Point::zero());
    assert_eq!(positions(&f), vec![pt(5, 20)]);
}

#[test]
fn push_frame_inlines_small_soft_frames() {
    let mut inner = Frame::soft(size(5, 5));
    inner.push(pt(1, 1), text(1));
    inner.push(pt(2, 2), text(2));
    let mut outer = Frame::soft(size(20, 20));
    outer.push(pt(0, 0), text(0));
    outer.push_frame(pt(10, 10), inner);
    assert_eq!(positions(&outer), vec![pt(0, 0), pt(11, 11), pt(12, 12)]);
}

#[test]
fn push_frame_groups_hard_frames() {
    let mut inner = Frame::hard(size(5, 5));
    inner.push(pt(1, 1), text(1));
    let mut outer = Frame::soft(size(20, 20));
    outer.push(pt(0, 0), text(0));
    outer.push_frame(pt(10, 10), inner);
    assert_eq!(outer.layer(), 2);
    match &outer.items()[1] {
        (p, FrameItem::Group(g)) => {
            assert_eq!(*p, pt(10, 10));
            assert_eq!(g.transform, Transform::identity());
            assert_eq!(positions(&g.frame), vec![pt(1, 1)]);
        }
        _ => panic!("expected a group"),
    }
}

#[test]
fn prepend_frame_inlines_in_background() {
    let mut inner = Frame::soft(size(5, 5));
    inner.push(pt(1, 1), text(1));
    let mut outer = Frame::soft(size(20, 20));
    outer.push(pt(0, 0), text(0));
    outer.prepend_frame(pt(0, 0), inner);
    assert!(is_text(&outer.items()[0].1, 1));
    assert!(is_text(&outer.items()[1].1, 0));
}

#[test]
fn push_frame_groups_big_frames() {
    let mut inner = Frame::soft(size(5, 5));
    for i in 0..6 {
        inner.push(pt(0, 0), text(i));
    }
    let mut outer = Frame::soft(size(20, 20));
    outer.push(pt(0, 0), text(9));
    outer.push_frame(pt(0, 0), inner);
    assert_eq!(outer.layer(), 2);
    assert!(matches!(outer.items()[1].1, FrameItem::Group(_)));
}

#[test]
fn hiding_keeps_only_metadata() {
    let mut inner = Frame::hard(size(5, 5));
    inner.push(pt(0, 0), text(1));
    inner.push(pt(0, 0), FrameItem::Tag(Tag(7)));
    let mut empty_group = Frame::hard(size(5, 5));
    empty_group.push(pt(0, 0), text(2));
    let mut f = Frame::soft(size(10, 10));
    f.push(pt(0, 0), text(0));
    f.push(pt(1, 1), FrameItem::Group(GroupItem::new(inner)));
    f.push(pt(2, 2), FrameItem::Group(GroupItem::new(empty_group)));
    f.push(pt(3, 3), FrameItem::Tag(Tag(8)));
    f.hide_content();
    assert_eq!(f.layer(), 2);
    match &f.items()[0] {
        (p, FrameItem::Group(g)) => {
            assert_eq!(*p, pt(1, 1));
            assert_eq!(g.frame.layer(), 1);
            assert!(matches!(g.frame.items()[0].1, FrameItem::Tag(Tag(7))));
        }
        _ => panic!("expected the group with the tag"),
    }
    assert!(matches!(f.items()[1], (_, FrameItem::Tag(Tag(8)))));
    // Hiding again changes nothing.
    f.hide_content();
    assert_eq!(f.layer(), 2);
}

#[test]
fn post_processing_adds_links_and_hides() {
    let mut f = Frame::soft(size(10, 10));
    f.push(pt(0, 0), text(0));
    let styles = StyleChain { dests: vec![Destination(1), Destination(2)], hidden: false };
    let f = f.post_processed(styles);
    assert_eq!(f.layer(), 3);
    assert!(matches!(f.items()[1].1, FrameItem::Link(Destination(1), _)));
    assert!(matches!(f.items()[2].1, FrameItem::Link(Destination(2), _)));

    let mut g = Frame::soft(size(10, 10));
    g.push(pt(0, 0), text(0));
    g.post_process_raw(Destinations::new(vec![Destination(3)]), true);
    assert_eq!(g.layer(), 0);

    let mut empty = Frame::soft(size(10, 10));
    empty.post_process(StyleChain { dests: vec![Destination(4)], hidden: false });
    assert!(empty.is_empty());
}

#[test]
fn fill_prepends_background_rect() {
    let mut f = Frame::soft(size(10, 10));
    f.push(pt(0, 0), text(0));
    let paint = Paint::Solid(Color::rgb(1, 2, 3));
    f.fill(paint);
    match &f.items()[0] {
        (p, FrameItem::Shape(shape, span)) => {
            assert_eq!(*p, Point::zero());
            assert_eq!(*shape, Geometry::Rect(size(10, 10)).filled(paint));
            assert_eq!(*span, Span::detached());
        }
        _ => panic!("expected the fill"),
    }
}

#[test]
fn fill_and_stroke_places_shapes_around_frame() {
    let mut f = Frame::soft(size(10, 10));
    f.push(pt(0, 0), text(0));
    let outset = Rel { rel: Ratio(0), abs: Abs::pt(1) };
    let outset = Sides { left: outset, top: outset, right: outset, bottom: outset };
    let paint = Paint::Solid(Color::rgb(9, 9, 9));
    f.fill_and_stroke(|s| vec![Geometry::Rect(s).filled(paint)], &outset, Span(5));
    match &f.items()[0] {
        (p, FrameItem::Shape(shape, span)) => {
            assert_eq!(*p, pt(-1, -1));
            assert_eq!(shape.geometry, Geometry::Rect(size(12, 12)));
            assert_eq!(*span, Span(5));
        }
        _ => panic!("expected the shape"),
    }
    assert_eq!(f.layer(), 2);
}

#[test]
fn grouping_wraps_all_content() {
    let mut f = Frame::hard(size(10, 10));
    f.set_baseline(Abs::pt(4));
    f.push(pt(1, 1), text(1));
    f.transform(Transform::scale(Ratio(2_000_000), Ratio(2_000_000)));
    assert_eq!(f.layer(), 1);
    assert_eq!(f.kind(), FrameKind::Soft);
    assert_eq!(f.baseline(), Abs::pt(4));
    match &f.items()[0] {
        (p, FrameItem::Group(g)) => {
            assert_eq!(*p, Point::zero());
            assert_eq!(g.transform.sx, Ratio(2_000_000));
            assert_eq!(g.frame.kind(), FrameKind::Hard);
        }
        _ => panic!("expected a group"),
    }
    f.clip(Path(3));
    f.set_parent(Location(4));
    f.label(Label(5));
    match &f.items()[0] {
        (_, FrameItem::Group(g)) => assert_eq!(g.label, Some(Label(5))),
        _ => panic!("expected a group"),
    }
    let mut empty = Frame::soft(size(1, 1));
    empty.transform(Transform::identity());
    empty.clip(Path(1));
    empty.set_parent(Location(1));
    assert!(empty.is_empty());
    empty.label(Label(1));
    assert_eq!(empty.layer(), 1);
}

#[test]
fn debug_marks() {
    let mut f = Frame::soft(size(10, 10)).mark_box();
    assert_eq!(f.layer(), 2);
    assert_eq!(positions(&f), vec![Point::zero(), pt(0, 10)]);
    f.mark_point(pt(5, 5));
    f.mark_line(Abs::pt(3));
    assert_eq!(positions(&f)[2], pt(3, 3));
    assert_eq!(positions(&f)[3], pt(0, 3));
    match &f.items()[2].1 {
        FrameItem::Shape(Shape { geometry, .. }, _) => {
            assert_eq!(*geometry, Geometry::Ellipse(size(4, 4)))
        }
        _ => panic!("expected the marker"),
    }
}
