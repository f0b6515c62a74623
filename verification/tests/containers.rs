use typst::container::layout_block_body;
use typst::container::{
    breakable_pod, distribute, unbreakable_pod, BlockBody, BlockElem, BoxElem,
    HeightBuf, Sizing,
};
use typst::container::{finish_block_frame, finish_block_frames, finish_box_frame, BlockFinish};
use typst::content::{Callback, Content, Label, Path, Span};
use typst::frame::{Frame, FrameItem, FrameKind};
use typst::geom::Point;
use typst::visualize::{Color, Geometry, Paint};
use typst::geom::{Abs, Axes, Em, Length, Ratio, Rel, Sides, Smart};
use typst::regions::{Region, Regions};

fn size(w: i64, h: i64) -> Axes<Abs> {
    Axes::new(Abs::pt(w), Abs::pt(h))
}

fn fixed(points: i64) -> Rel<Length> {
    Rel { rel: Ratio(0), abs: Length { abs: Abs::pt(points), em: Em(0) } }
}

fn no_inset() -> Sides<Rel<Abs>> {
    let z = Rel { rel: Ratio(0), abs: Abs::zero() };
    Sides { left: z, top: z, right: z, bottom: z }
}

fn inset(points: i64) -> Sides<Rel<Abs>> {
    let v = Rel { rel: Ratio(0), abs: Abs::pt(points) };
    Sides { left: v, top: v, right: v, bottom: v }
}

fn pts(v: &[i64]) -> Vec<Abs> {
    v.iter().map(|p| Abs::pt(*p)).collect()
}

#[test]
fn unbreakable_pod_takes_the_size_less_the_inset() {
    let pod = unbreakable_pod(
        &Sizing::Rel(fixed(50)),
        &Sizing::Auto,
        &inset(5),
        Abs::pt(10),
        size(200, 100),
    );
    assert_eq!(pod.size, size(40, 90));
    assert_eq!(pod.expand, Axes::new(true, false));
}

#[test]
fn unbreakable_pod_resolves_em_and_ratio() {
    let width = Rel { rel: Ratio(500_000), abs: Length { abs: Abs::zero(), em: Em(1_000_000) } };
    let pod = unbreakable_pod(&Sizing::Rel(width), &Sizing::Fr(typst::geom::Fr(1)), &no_inset(), Abs::pt(10), size(200, 100));
    assert_eq!(pod.size, size(110, 100));
    assert_eq!(pod.expand, Axes::new(true, true));
}

#[test]
fn distribute_fills_the_regions_in_turn() {
    let backlog = [Abs::pt(40)];
    let regions = Regions { size: size(100, 30), expand: Axes::new(false, false), full: Abs::pt(30), backlog: &backlog, last: None };
    assert_eq!(distribute(Abs::pt(50), &regions), pts(&[30, 20]));
}

#[test]
fn distribute_puts_the_rest_into_the_last_height() {
    let backlog = [Abs::pt(40)];
    let regions = Regions { size: size(100, 30), expand: Axes::new(false, false), full: Abs::pt(30), backlog: &backlog, last: None };
    assert_eq!(distribute(Abs::pt(100), &regions), pts(&[30, 70]));
}

#[test]
fn distribute_repeats_the_last_region() {
    let regions = Regions { size: size(100, 30), expand: Axes::new(false, false), full: Abs::pt(30), backlog: &[], last: Some(Abs::pt(40)) };
    assert_eq!(distribute(Abs::pt(100), &regions), pts(&[30, 40, 30]));
}

#[test]
fn distribute_stops_at_a_last_region_without_room() {
    let regions = Regions { size: size(100, 0), expand: Axes::new(false, false), full: Abs::zero(), backlog: &[], last: Some(Abs::zero()) };
    assert_eq!(distribute(Abs::pt(25), &regions), pts(&[25]));
}

#[test]
fn breakable_pod_with_fixed_height_spreads_it() {
    let backlog = [Abs::pt(40)];
    let regions = Regions { size: size(200, 30), expand: Axes::new(false, false), full: Abs::pt(30), backlog: &backlog, last: Some(Abs::pt(40)) };
    let mut buf = HeightBuf::new();
    let pod = breakable_pod(&Sizing::Auto, &Sizing::Rel(fixed(100)), &no_inset(), Abs::pt(10), &regions, &mut buf);
    assert_eq!(pod.size, size(200, 30));
    assert_eq!(pod.full, Abs::pt(100));
    assert_eq!(pod.backlog, &pts(&[40, 30])[..]);
    assert_eq!(pod.last, None);
    assert_eq!(pod.expand, Axes::new(false, true));
}

#[test]
fn breakable_pod_with_auto_height_inherits_the_regions() {
    let backlog = [Abs::pt(40), Abs::pt(50)];
    let regions = Regions { size: size(200, 30), expand: Axes::new(false, false), full: Abs::pt(35), backlog: &backlog, last: Some(Abs::pt(60)) };
    let mut buf = HeightBuf::new();
    let pod = breakable_pod(&Sizing::Rel(fixed(80)), &Sizing::Auto, &inset(5), Abs::pt(10), &regions, &mut buf);
    assert_eq!(pod.size, size(70, 20));
    assert_eq!(pod.full, Abs::pt(25));
    assert_eq!(pod.backlog, &pts(&[30, 40])[..]);
    assert_eq!(pod.last, Some(Abs::pt(50)));
    assert_eq!(pod.expand, Axes::new(true, false));
}

#[test]
fn block_and_box_defaults() {
    let b = BlockElem::new();
    assert!(b.breakable);
    assert_eq!(b.height, Sizing::Auto);
    let single = BlockElem::single_layouter(Callback(1));
    assert!(!single.breakable);
    assert_eq!(single.body, Some(BlockBody::SingleLayouter(Callback(1))));
    let multi = BlockElem::multi_layouter(Callback(2));
    assert!(multi.breakable);
    let with_body = BlockElem::new().with_body(Some(BlockBody::Content(Content(3))));
    assert_eq!(with_body.body, Some(BlockBody::Content(Content(3))));
    let bx = BoxElem::new();
    assert_eq!(bx.width, Sizing::Auto);
    assert_eq!(bx.height, Smart::Auto);
    assert!(!bx.clip);
}

fn finish(inset_pt: i64, clip: bool, label: Option<Label>) -> BlockFinish {
    BlockFinish {
        explicit: true,
        inset: if inset_pt == 0 { no_inset() } else { inset(inset_pt) },
        clip,
        outset: no_inset(),
        span: Span(3),
        label,
    }
}

fn with_text(w: i64, h: i64) -> Frame {
    let mut f = Frame::soft(size(w, h));
    f.push(Point::zero(), FrameItem::Tag(typst::content::Tag(1)));
    f
}

#[test]
fn block_frames_take_the_region_size_and_grow() {
    let paint = Paint::Solid(Color::rgb(1, 2, 3));
    let f = finish_block_frame(
        with_text(10, 10),
        size(50, 30),
        Axes::new(true, false),
        &finish(5, false, None),
        true,
        |_s: Axes<Abs>| Path(9),
        move |s: Axes<Abs>| vec![Geometry::Rect(s).filled(paint)],
    );
    assert_eq!(f.size(), size(60, 20));
    assert_eq!(f.kind(), FrameKind::Hard);
    assert_eq!(f.items().len(), 2);
    match &f.items()[0] {
        (p, FrameItem::Shape(shape, span)) => {
            assert_eq!(*p, Point::zero());
            assert_eq!(shape.geometry, Geometry::Rect(size(60, 20)));
            assert_eq!(*span, Span(3));
        }
        _ => panic!("expected the fill"),
    }
    assert_eq!(f.items()[1].0, Point::new(Abs::pt(5), Abs::pt(5)));
}

#[test]
fn clipped_block_frames_are_grouped() {
    let f = finish_block_frame(
        with_text(10, 10),
        size(50, 30),
        Axes::new(false, false),
        &finish(0, true, None),
        false,
        |_s: Axes<Abs>| Path(9),
        |_s: Axes<Abs>| vec![],
    );
    assert_eq!(f.items().len(), 1);
    match &f.items()[0] {
        (_, FrameItem::Group(g)) => assert_eq!(g.clip_path, Some(Path(9))),
        _ => panic!("expected the clipping group"),
    }
}

#[test]
fn an_empty_first_frame_stays_undecorated() {
    let backlog = [Abs::pt(40)];
    let pod = Regions { size: size(50, 30), expand: Axes::new(true, true), full: Abs::pt(30), backlog: &backlog, last: None };
    let paint = Paint::Solid(Color::rgb(1, 2, 3));
    let frames = finish_block_frames(
        vec![Frame::soft(size(0, 0)), with_text(10, 10), with_text(5, 5)],
        &pod,
        &finish(0, false, Some(Label(4))),
        true,
        |_s: Axes<Abs>| Path(9),
        move |s: Axes<Abs>| vec![Geometry::Rect(s).filled(paint)],
    );
    assert_eq!(frames.len(), 3);
    assert_eq!(frames[0].size(), size(50, 30));
    assert_eq!(frames[1].size(), size(50, 40));
    assert_eq!(frames[2].size(), size(5, 5));
    for f in &frames {
        match &f.items()[0] {
            (_, FrameItem::Group(g)) => assert_eq!(g.label, Some(Label(4))),
            _ => panic!("expected the label"),
        }
    }
    match &frames[0].items()[0] {
        (_, FrameItem::Group(g)) => assert!(g.frame.items().is_empty()),
        _ => panic!("expected the label"),
    }
    match &frames[1].items()[0] {
        (_, FrameItem::Group(g)) => assert_eq!(g.frame.items().len(), 2),
        _ => panic!("expected the label"),
    }
    match &frames[2].items()[0] {
        (_, FrameItem::Group(g)) => assert_eq!(g.frame.items().len(), 1),
        _ => panic!("expected the label"),
    }
}

#[test]
fn box_frames_shift_their_baseline() {
    let f = finish_box_frame(
        with_text(10, 10),
        Region::new(size(20, 30), Axes::new(true, false)),
        &finish(0, false, None),
        false,
        |_s: Axes<Abs>| Path(9),
        |_s: Axes<Abs>| vec![],
        Rel { rel: Ratio(0), abs: Abs::pt(2) },
    );
    assert_eq!(f.size(), size(20, 10));
    assert_eq!(f.kind(), FrameKind::Hard);
    assert_eq!(f.baseline(), Abs::pt(8));
    let g = finish_box_frame(
        with_text(10, 10),
        Region::new(size(20, 30), Axes::new(false, false)),
        &finish(0, false, None),
        false,
        |_s: Axes<Abs>| Path(9),
        |_s: Axes<Abs>| vec![],
        Rel { rel: Ratio(500_000), abs: Abs::zero() },
    );
    assert_eq!(g.baseline(), Abs::pt(5));
    assert!(g.has_baseline());
}

#[test]
fn block_body_dispatch() {
    let backlog = [Abs::pt(50), Abs::pt(60)];
    let pod = Regions { size: size(100, 30), expand: Axes::new(false, true), full: Abs::pt(30), backlog: &backlog, last: None };
    let content = |_: Content, p: Regions| {
        if p.expand.x {
            vec![Frame::soft(Axes::new(p.size.x, Abs::pt(5))), Frame::soft(Axes::new(p.size.x, Abs::pt(5)))]
        } else {
            vec![Frame::soft(size(20, 5)), Frame::soft(size(40, 5))]
        }
    };
    let single = |_: Callback, r: Region| Frame::soft(r.size);
    let multi = |_: Callback, p: Regions| vec![Frame::soft(Axes::new(Abs::pt(if p.expand.x { 1 } else { 0 }), Abs::zero()))];

    let empty = layout_block_body(None, pod, Axes::new(false, false), content, single, multi);
    assert_eq!(empty.len(), 3);
    assert!(empty.iter().all(|f| f.size() == size(0, 0) && f.kind() == FrameKind::Hard));

    let laid = layout_block_body(Some(BlockBody::Content(Content(1))), pod, Axes::new(false, false), content, single, multi);
    assert_eq!(laid.len(), 2);
    assert_eq!(laid[0].width(), Abs::pt(40));
    assert_eq!(laid[1].width(), Abs::pt(40));

    let one = layout_block_body(Some(BlockBody::SingleLayouter(Callback(2))), pod, Axes::new(false, false), content, single, multi);
    assert_eq!(one.len(), 1);
    assert_eq!(one[0].size(), size(100, 30));

    let many = layout_block_body(Some(BlockBody::MultiLayouter(Callback(3))), pod, Axes::new(true, false), content, single, multi);
    assert_eq!(many[0].width(), Abs::pt(1));
}

#[test]
fn iterated_regions_are_the_sizes_after_each_break() {
    let backlog = vec![Abs::pt(20), Abs::pt(35)];
    let regions = Regions { size: size(100, 30), expand: Axes::new(false, false), full: Abs::pt(30), backlog: &backlog, last: None };
    let sizes = regions.iter(5);
    assert_eq!(sizes, vec![size(100, 30), size(100, 20), size(100, 35)]);
    let mut advanced = Regions { size: size(100, 30), expand: Axes::new(false, false), full: Abs::pt(30), backlog: &backlog, last: None };
    for expected in &sizes {
        assert_eq!(advanced.size, *expected);
        advanced.next();
    }
    let repeating = Regions { size: size(100, 30), expand: Axes::new(false, false), full: Abs::pt(30), backlog: &[], last: Some(Abs::pt(40)) };
    assert_eq!(repeating.iter(3), vec![size(100, 30), size(100, 40), size(100, 40)]);
}
