use typst::align::FixedAlignment;
use typst::collect::{collect, last_was_par, BlockInput, Child, CollectError, FlowInput, FlowKind, ParInput, PlaceInput};
use typst::container::BlockElem;
use typst::content::{Content, StyleChain, Tag};
use typst::flow::Spacing;
use typst::frame::{Frame, FrameItem};
use typst::geom::{Abs, Axes, Fr, Point, Ratio, Rel, Smart};
use typst::place::PlaceElem;

fn line(h: i64) -> Frame {
    let mut f = Frame::soft(Axes::new(Abs::pt(20), Abs::pt(h)));
    f.push(Point::zero(), FrameItem::Tag(Tag(1)));
    f
}

fn start() -> Axes<FixedAlignment> {
    Axes::new(FixedAlignment::Start, FixedAlignment::Start)
}

fn rel(pt: i64) -> Rel<Abs> {
    Rel { rel: Ratio(0), abs: Abs::pt(pt) }
}

fn par(costs: i64) -> FlowInput {
    FlowInput::Par(ParInput {
        lines: vec![line(10), line(10), line(10)],
        align: start(),
        leading: Abs::pt(2),
        spacing: Abs::pt(5),
        orphan_cost: Ratio(costs),
        widow_cost: Ratio(costs),
    })
}

fn place(float: bool, align_y: Smart<Option<FixedAlignment>>) -> FlowInput {
    FlowInput::Place(PlaceInput {
        float,
        clearance: Abs::pt(1),
        delta: Axes::new(rel(0), rel(0)),
        align_x: FixedAlignment::Center,
        align_y,
        elem: PlaceElem::new(Content(0)),
        styles: StyleChain { dests: vec![], hidden: false },
        alignment: Smart::Auto,
    })
}

fn spacing(c: &Child) -> Option<(Rel<Abs>, u8)> {
    match c {
        Child::Rel(r, w) => Some((*r, *w)),
        _ => None,
    }
}

fn need(c: &Child) -> Option<Abs> {
    match c {
        Child::Line(l) => Some(l.need),
        _ => None,
    }
}

#[test]
fn paragraph_lines_between_spacing_keep_orphans_and_widows() {
    let out = match collect(vec![par(1_000_000)]) {
        Ok(out) => out,
        Err(_) => panic!("a paragraph can be collected"),
    };
    assert_eq!(out.len(), 7);
    assert_eq!(spacing(&out[0]), Some((rel(5), 4)));
    assert_eq!(need(&out[1]), Some(Abs::pt(34)));
    assert_eq!(spacing(&out[2]), Some((rel(2), 5)));
    assert_eq!(need(&out[3]), Some(Abs::pt(10)));
    assert_eq!(spacing(&out[4]), Some((rel(2), 5)));
    assert_eq!(need(&out[5]), Some(Abs::pt(10)));
    assert_eq!(spacing(&out[6]), Some((rel(5), 4)));
}

#[test]
fn paragraph_lines_without_costs_need_their_own_height() {
    let out = match collect(vec![par(0)]) {
        Ok(out) => out,
        Err(_) => panic!("a paragraph can be collected"),
    };
    assert_eq!(need(&out[1]), Some(Abs::pt(10)));
}

#[test]
fn spacing_breaks_tags_and_blocks_are_prepared() {
    let block = FlowInput::Block(BlockInput {
        align: start(),
        sticky: true,
        rootable: false,
        elem: BlockElem::new(),
        styles: StyleChain { dests: vec![], hidden: false },
        above: Smart::Auto,
        below: Smart::Custom(Spacing::Rel(rel(3))),
        par_spacing: Abs::pt(6),
    });
    let inputs = vec![
        FlowInput::Tag(Tag(4)),
        FlowInput::V(Spacing::Rel(rel(7)), true),
        FlowInput::V(Spacing::Fr(Fr(2)), false),
        FlowInput::Colbreak(true),
        block,
        place(true, Smart::Auto),
        FlowInput::Flush,
    ];
    let out = match collect(inputs) {
        Ok(out) => out,
        Err(_) => panic!("these children can be collected"),
    };
    assert_eq!(out.len(), 9);
    assert!(matches!(out[0], Child::Tag(Tag(4))));
    assert_eq!(spacing(&out[1]), Some((rel(7), 1)));
    assert!(matches!(out[2], Child::Fr(Fr(2))));
    assert!(matches!(out[3], Child::Break(true)));
    assert_eq!(spacing(&out[4]), Some((rel(6), 4)));
    match &out[5] {
        Child::Block(b) => assert!(b.sticky && !b.rootable),
        _ => panic!("the block comes between its spacing"),
    }
    assert_eq!(spacing(&out[6]), Some((rel(3), 3)));
    match &out[7] {
        Child::Placed(p) => assert!(p.float && p.clearance == Abs::pt(1)),
        _ => panic!("a placed element is prepared"),
    }
    assert!(matches!(out[8], Child::Flush));
}

#[test]
fn misplaced_elements_are_refused() {
    match collect(vec![place(true, Smart::Custom(Some(FixedAlignment::Center)))]) {
        Err(e) => {
            assert!(matches!(e, CollectError::FloatAlignment));
            assert_eq!(e.message(), "floating placement must be `auto`, `top`, or `bottom`");
        }
        Ok(_) => panic!("a centered float is refused"),
    }
    match collect(vec![place(false, Smart::Auto)]) {
        Err(e) => assert!(matches!(e, CollectError::AutoPosition)),
        Ok(_) => panic!("automatic positioning needs a float"),
    }
    match collect(vec![FlowInput::Flush, FlowInput::Pagebreak, FlowInput::Other("heading".to_string())]) {
        Err(e) => assert_eq!(e.message(), "pagebreaks are not allowed inside of containers"),
        Ok(_) => panic!("a page break is refused"),
    }
    match collect(vec![FlowInput::Other("heading".to_string())]) {
        Err(e) => assert_eq!(e.message(), "heading is not allowed here"),
        Ok(_) => panic!("an unknown element is refused"),
    }
}

#[test]
fn paragraphs_know_whether_a_paragraph_came_last() {
    let kinds = vec![FlowKind::Par, FlowKind::Other, FlowKind::Par, FlowKind::Block, FlowKind::Other, FlowKind::Par];
    assert_eq!(last_was_par(&kinds), vec![false, true, true, true, false, false]);
}
