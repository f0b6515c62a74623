use typst::align::FixedAlignment;
use typst::align::{Alignment, HAlignment, VAlignment};
use typst::content::{Content, StyleChain, Tag, TextItem};
use typst::place::PlaceElem;
use typst::flow::{line_needs, FlowItem, FlowLayouter, Spacing};
use typst::frame::{Frame, FrameItem};
use typst::geom::{Abs, Axes, Dir, Fr, NonZeroUsize, Point, Ratio, Rel, Smart, RATIO_ONE};
use typst::regions::Regions;

fn size(w: i64, h: i64) -> Axes<Abs> {
    Axes::new(Abs::pt(w), Abs::pt(h))
}

fn block(w: i64, h: i64) -> Frame {
    let mut f = Frame::hard(size(w, h));
    f.push(Point::zero(), FrameItem::Text(TextItem(1)));
    f
}

fn frame_item(frame: Frame, x: FixedAlignment, sticky: bool) -> FlowItem {
    FlowItem::Frame { frame, align: Axes::new(x, FixedAlignment::Start), sticky, movable: false }
}

fn layouter<'a>(regions: Regions<'a>, backlog: &'a mut Vec<Abs>, columns: usize) -> FlowLayouter<'a> {
    FlowLayouter::new(
        regions,
        NonZeroUsize::new(columns).unwrap(),
        Rel { rel: Ratio(0), abs: Abs::pt(10) },
        true,
        Abs::pt(1),
        backlog,
    )
}

fn group_positions(frame: &Frame) -> Vec<Point> {
    frame.items().iter().map(|(p, _)| *p).collect()
}

#[test]
fn out_of_flow_items() {
    let placed = FlowItem::Placed {
        frame: Frame::soft(size(0, 0)),
        x_align: FixedAlignment::Start,
        y_align: Smart::Auto,
        delta: Axes::new(Rel { rel: Ratio(0), abs: Abs::zero() }, Rel { rel: Ratio(0), abs: Abs::zero() }),
        float: false,
        clearance: Abs::zero(),
    };
    assert!(placed.is_out_of_flow());
    let mut tags = Frame::soft(size(0, 0));
    tags.push(Point::zero(), FrameItem::Tag(Tag(1)));
    assert!(frame_item(tags, FixedAlignment::Start, false).is_out_of_flow());
    assert!(!frame_item(block(1, 1), FixedAlignment::Start, false).is_out_of_flow());
    assert!(!FlowItem::Absolute(Abs::pt(1), false).is_out_of_flow());
}

#[test]
fn flow_stacks_frames_in_a_region() {
    let mut backlog = Vec::new();
    let regions = Regions::repeat(size(100, 100), Axes::new(false, false));
    let mut flow = layouter(regions, &mut backlog, 1);
    flow.handle_item(frame_item(block(20, 10), FixedAlignment::Start, false));
    flow.handle_v(Spacing::Rel(Rel { rel: Ratio(0), abs: Abs::pt(5) }), false);
    flow.handle_item(frame_item(block(40, 10), FixedAlignment::End, false));
    assert_eq!(flow.regions.size.y, Abs::pt(75));
    let out_regions = Regions::repeat(size(100, 100), Axes::new(false, false));
    let frames = flow.finish(&out_regions, Dir::LTR);
    assert_eq!(frames.len(), 1);
    assert_eq!(frames[0].size(), size(40, 25));
    // Both blocks are inlined: their items sit at the block positions.
    assert_eq!(group_positions(&frames[0]), vec![Point::zero(), Point::new(Abs::zero(), Abs::pt(15))]);
}

#[test]
fn weak_spacing_before_any_frame_is_dropped() {
    let mut backlog = Vec::new();
    let regions = Regions::repeat(size(100, 100), Axes::new(false, false));
    let mut flow = layouter(regions, &mut backlog, 1);
    flow.handle_item(FlowItem::Absolute(Abs::pt(5), true));
    assert_eq!(flow.items.len(), 0);
    assert_eq!(flow.regions.size.y, Abs::pt(100));
    flow.handle_item(FlowItem::Absolute(Abs::pt(5), false));
    assert_eq!(flow.items.len(), 1);
    assert_eq!(flow.regions.size.y, Abs::pt(95));
}

#[test]
fn fractional_spacing_fills_the_region() {
    let mut backlog = Vec::new();
    let regions = Regions::repeat(size(100, 100), Axes::new(false, false));
    let mut flow = layouter(regions, &mut backlog, 1);
    flow.handle_item(frame_item(block(20, 10), FixedAlignment::Start, false));
    flow.handle_item(FlowItem::Fractional(Fr(RATIO_ONE)));
    flow.handle_item(frame_item(block(20, 10), FixedAlignment::Start, false));
    flow.finish_region(true);
    assert_eq!(flow.finished.len(), 1);
    let frame = &flow.finished[0];
    assert_eq!(frame.size(), size(20, 100));
    assert_eq!(group_positions(frame), vec![Point::zero(), Point::new(Abs::zero(), Abs::pt(90))]);
}

#[test]
fn frames_move_on_to_a_region_they_fit() {
    let heights = [Abs::pt(50)];
    let mut backlog = Vec::new();
    let regions = Regions {
        size: size(100, 30),
        expand: Axes::new(false, false),
        full: Abs::pt(30),
        backlog: &heights,
        last: None,
    };
    let mut flow = layouter(regions, &mut backlog, 1);
    flow.handle_item(frame_item(block(10, 20), FixedAlignment::Start, false));
    flow.handle_item(frame_item(block(10, 20), FixedAlignment::Start, false));
    assert_eq!(flow.finished.len(), 1);
    assert_eq!(flow.regions.size.y, Abs::pt(30));
    assert!(flow.regions.in_last());
}

#[test]
fn sticky_frames_migrate_with_the_region_break() {
    let heights = [Abs::pt(100)];
    let mut backlog = Vec::new();
    let regions = Regions {
        size: size(100, 100),
        expand: Axes::new(false, false),
        full: Abs::pt(100),
        backlog: &heights,
        last: None,
    };
    let mut flow = layouter(regions, &mut backlog, 1);
    flow.handle_item(frame_item(block(10, 10), FixedAlignment::Start, false));
    flow.handle_item(frame_item(block(10, 10), FixedAlignment::Start, true));
    flow.handle_item(FlowItem::Absolute(Abs::pt(3), false));
    let in_last = flow.finish_region_with_migration();
    assert!(in_last);
    assert_eq!(flow.finished.len(), 1);
    assert_eq!(flow.finished[0].size(), size(10, 10));
    assert_eq!(flow.items.len(), 2);
    assert_eq!(flow.regions.size.y, Abs::pt(87));
}

#[test]
fn out_of_flow_regions_keep_their_items() {
    let heights = [Abs::pt(100)];
    let mut backlog = Vec::new();
    let regions = Regions {
        size: size(100, 100),
        expand: Axes::new(false, false),
        full: Abs::pt(100),
        backlog: &heights,
        last: None,
    };
    let mut flow = layouter(regions, &mut backlog, 1);
    let mut tags = Frame::soft(size(0, 0));
    tags.push(Point::zero(), FrameItem::Tag(Tag(3)));
    flow.handle_item(frame_item(tags, FixedAlignment::Start, false));
    flow.finish_region(false);
    assert_eq!(flow.finished.len(), 1);
    assert!(flow.finished[0].is_empty());
    assert_eq!(flow.items.len(), 1);
}

#[test]
fn floats_go_to_top_or_bottom() {
    let mut backlog = Vec::new();
    let regions = Regions::repeat(size(100, 100), Axes::new(false, false));
    let mut flow = layouter(regions, &mut backlog, 1);
    let float = |align| FlowItem::Placed {
        frame: block(10, 10),
        x_align: FixedAlignment::Start,
        y_align: align,
        delta: Axes::new(Rel { rel: Ratio(0), abs: Abs::zero() }, Rel { rel: Ratio(0), abs: Abs::zero() }),
        float: true,
        clearance: Abs::pt(2),
    };
    flow.handle_item(float(Smart::Auto));
    assert_eq!(flow.regions.size.y, Abs::pt(88));
    match &flow.items[0] {
        FlowItem::Placed { y_align, frame, .. } => {
            assert_eq!(*y_align, Smart::Custom(Some(FixedAlignment::Start)));
            assert_eq!(frame.size(), size(10, 12));
        }
        _ => panic!("expected the float"),
    }
    flow.handle_item(float(Smart::Custom(Some(FixedAlignment::End))));
    match &flow.items[1] {
        FlowItem::Placed { frame, .. } => {
            assert_eq!(frame.size(), size(10, 12));
            assert_eq!(frame.items()[0].0, Point::new(Abs::zero(), Abs::pt(2)));
        }
        _ => panic!("expected the float"),
    }
}

#[test]
fn tags_attach_to_the_next_frame() {
    let mut backlog = Vec::new();
    let regions = Regions::repeat(size(100, 100), Axes::new(false, false));
    let mut flow = layouter(regions, &mut backlog, 1);
    flow.handle_tag(Tag(4));
    let mut empty = Frame::soft(size(1, 1));
    flow.drain_tag(&mut empty);
    assert!(empty.is_empty());
    assert_eq!(flow.pending_tags.len(), 1);
    let mut frame = block(1, 1);
    flow.drain_tag(&mut frame);
    assert_eq!(frame.layer(), 2);
    assert!(matches!(frame.items()[0].1, FrameItem::Tag(Tag(4))));
    assert!(flow.pending_tags.is_empty());
}

#[test]
fn columns_split_regions_and_stitch_back() {
    let heights = [Abs::pt(60)];
    let mut backlog = Vec::new();
    let regions = Regions {
        size: size(110, 50),
        expand: Axes::new(false, false),
        full: Abs::pt(50),
        backlog: &heights,
        last: None,
    };
    let mut flow = layouter(regions, &mut backlog, 2);
    assert_eq!(flow.regions.size, size(50, 50));
    let split: Vec<Abs> = flow.regions.backlog.to_vec();
    assert_eq!(split, vec![Abs::pt(50), Abs::pt(60), Abs::pt(60)]);
    assert!(flow.regions.expand.x);
    flow.handle_item(frame_item(block(50, 40), FixedAlignment::Start, false));
    flow.handle_colbreak();
    flow.handle_item(frame_item(block(50, 30), FixedAlignment::Start, false));
    let outer = Regions {
        size: size(110, 50),
        expand: Axes::new(false, false),
        full: Abs::pt(50),
        backlog: &heights,
        last: None,
    };
    let frames = flow.finish(&outer, Dir::LTR);
    assert_eq!(frames.len(), 1);
    assert_eq!(frames[0].size(), size(110, 40));
    assert_eq!(frames[0].layer(), 2);
}

#[test]
fn colbreak_in_a_single_region_does_nothing() {
    let mut backlog = Vec::new();
    let regions = Regions::from_region(typst::regions::Region::new(size(10, 10), Axes::new(false, false)));
    let mut flow = layouter(regions, &mut backlog, 1);
    flow.handle_item(frame_item(block(5, 5), FixedAlignment::Start, false));
    flow.handle_colbreak();
    assert_eq!(flow.finished.len(), 0);
    assert_eq!(flow.items.len(), 1);
}

fn line(h: i64) -> typst::frame::Frame {
    let mut f = typst::frame::Frame::soft(typst::geom::Axes::new(typst::geom::Abs::pt(50), typst::geom::Abs::pt(h)));
    f.push(typst::geom::Point::zero(), typst::frame::FrameItem::Tag(typst::content::Tag(1)));
    f
}

fn pts_vec(v: &[i64]) -> Vec<typst::geom::Abs> {
    v.iter().map(|p| typst::geom::Abs::pt(*p)).collect()
}

#[test]
fn paragraph_lines_keep_orphans_and_widows_together() {
    let three = vec![line(10), line(12), line(14)];
    assert_eq!(line_needs(&three, Abs::pt(2), true, true), pts_vec(&[40, 12, 14]));
    let four = vec![line(10), line(12), line(14), line(16)];
    assert_eq!(line_needs(&four, Abs::pt(2), false, true), pts_vec(&[10, 12, 32, 16]));
    assert_eq!(line_needs(&four, Abs::pt(2), true, false), pts_vec(&[24, 12, 14, 16]));
    assert_eq!(line_needs(&four, Abs::pt(2), false, false), pts_vec(&[10, 12, 14, 16]));
    let empty_second = vec![line(10), typst::frame::Frame::soft(typst::geom::Axes::new(Abs::pt(50), Abs::pt(12))), line(14)];
    assert_eq!(line_needs(&empty_second, Abs::pt(2), true, false), pts_vec(&[10, 12, 14]));
}

#[test]
fn placed_content_goes_where_its_alignment_says() {
    let mut backlog = Vec::new();
    let regions = Regions::repeat(size(100, 100), Axes::new(false, false));
    let mut flow = layouter(regions, &mut backlog, 1);
    let mut elem = PlaceElem::new(Content(1));
    elem.alignment = Smart::Custom(Alignment::Both(HAlignment::End, VAlignment::Bottom));
    flow.handle_place(&elem, block(10, 10), Abs::pt(10), Dir::RTL, StyleChain { dests: vec![], hidden: false });
    assert_eq!(flow.items.len(), 1);
    match &flow.items[0] {
        FlowItem::Placed { x_align, y_align, float, .. } => {
            assert_eq!(*x_align, FixedAlignment::Start);
            assert_eq!(*y_align, Smart::Custom(Some(FixedAlignment::End)));
            assert!(!*float);
        }
        _ => panic!("expected placed content"),
    }
    let mut centered = PlaceElem::new(Content(2));
    centered.alignment = Smart::Auto;
    flow.handle_place(&centered, block(10, 10), Abs::pt(10), Dir::LTR, StyleChain { dests: vec![], hidden: false });
    match &flow.items[1] {
        FlowItem::Placed { x_align, y_align, .. } => {
            assert_eq!(*x_align, FixedAlignment::Center);
            assert_eq!(*y_align, Smart::Auto);
        }
        _ => panic!("expected placed content"),
    }
}

#[test]
fn block_frames_take_the_pending_tags_and_break_regions() {
    let mut backlog = Vec::new();
    let regions = Regions::repeat(size(100, 100), Axes::new(false, false));
    let mut flow = layouter(regions, &mut backlog, 1);
    flow.handle_tag(Tag(7));
    flow.finish_if_full();
    flow.last_was_par = true;
    let align = Axes::new(FixedAlignment::Start, FixedAlignment::Start);
    flow.handle_block(vec![block(20, 100), block(20, 30)], align, false, StyleChain { dests: vec![], hidden: false });
    assert!(!flow.last_was_par);
    assert_eq!(flow.finished.len(), 1);
    assert_eq!(flow.items.len(), 1);
    assert!(flow.pending_tags.is_empty());
    assert_eq!(flow.regions.size.y, Abs::pt(70));
    match &flow.finished[0].items()[0] {
        (_, FrameItem::Group(g)) => {
            assert!(matches!(g.frame.items()[0], (_, FrameItem::Tag(Tag(7)))));
            assert_eq!(g.frame.items().len(), 2);
        }
        _ => panic!("expected the block's frame"),
    }
}

#[test]
fn paragraph_lines_follow_each_other_with_leading() {
    let mut backlog = Vec::new();
    let regions = Regions::repeat(size(100, 100), Axes::new(false, false));
    let mut flow = layouter(regions, &mut backlog, 1);
    let align = Axes::new(FixedAlignment::Start, FixedAlignment::Start);
    flow.handle_par(vec![line(10), line(10), line(10)], align, Abs::pt(2), false, false);
    assert!(flow.last_was_par);
    assert_eq!(flow.items.len(), 5);
    assert_eq!(flow.regions.size.y, Abs::pt(66));
    assert!(matches!(flow.items[1], FlowItem::Absolute(a, true) if a == Abs::pt(2)));
}

#[test]
fn a_paragraph_that_does_not_fit_moves_on() {
    let mut backlog = Vec::new();
    let heights = [Abs::pt(100)];
    let regions = Regions { size: size(100, 15), expand: Axes::new(false, false), full: Abs::pt(15), backlog: &heights, last: None };
    let mut flow = layouter(regions, &mut backlog, 1);
    flow.handle_item(frame_item(block(20, 5), FixedAlignment::Start, false));
    let align = Axes::new(FixedAlignment::Start, FixedAlignment::Start);
    flow.handle_par(vec![line(20), line(20)], align, Abs::pt(2), false, false);
    assert_eq!(flow.finished.len(), 1);
    assert_eq!(flow.items.len(), 3);
    assert_eq!(flow.regions.size.y, Abs::pt(58));
}

#[test]
fn keeping_orphans_moves_the_first_line_on() {
    let mut backlog = Vec::new();
    let heights = [Abs::pt(100)];
    let regions = Regions { size: size(100, 30), expand: Axes::new(false, false), full: Abs::pt(30), backlog: &heights, last: None };
    let mut flow = layouter(regions, &mut backlog, 1);
    flow.handle_item(frame_item(block(20, 5), FixedAlignment::Start, false));
    let align = Axes::new(FixedAlignment::Start, FixedAlignment::Start);
    flow.handle_par(vec![line(20), line(20), line(20), line(20)], align, Abs::pt(2), true, false);
    assert_eq!(flow.finished.len(), 1);
    assert_eq!(flow.regions.size.y, Abs::pt(100 - 20 * 4 - 2 * 3));
}

#[test]
fn flush_places_waiting_floats_in_a_later_region() {
    let mut backlog = Vec::new();
    let regions = Regions {
        size: size(100, 20),
        expand: Axes::new(false, false),
        full: Abs::pt(20),
        backlog: &[],
        last: Some(Abs::pt(100)),
    };
    let mut flow = layouter(regions, &mut backlog, 1);
    let float = FlowItem::Placed {
        frame: block(10, 30),
        x_align: FixedAlignment::Start,
        y_align: Smart::Custom(Some(FixedAlignment::Start)),
        delta: Axes::new(Rel { rel: Ratio(0), abs: Abs::zero() }, Rel { rel: Ratio(0), abs: Abs::zero() }),
        float: true,
        clearance: Abs::zero(),
    };
    flow.handle_item(float);
    assert_eq!(flow.pending_floats.len(), 1);
    assert!(flow.items.is_empty());
    flow.handle_flush();
    assert!(flow.pending_floats.is_empty());
    assert_eq!(flow.finished.len(), 1);
    assert_eq!(flow.items.len(), 1);
    assert_eq!(flow.regions.size.y, Abs::pt(70));
}

#[test]
fn flush_without_waiting_floats_changes_nothing() {
    let mut backlog = Vec::new();
    let regions = Regions::repeat(size(100, 100), Axes::new(false, false));
    let mut flow = layouter(regions, &mut backlog, 1);
    flow.handle_item(frame_item(block(10, 10), FixedAlignment::Start, false));
    flow.handle_flush();
    assert!(flow.finished.is_empty());
    assert_eq!(flow.items.len(), 1);
    assert_eq!(flow.regions.size.y, Abs::pt(90));
}
