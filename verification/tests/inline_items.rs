use typst::align::FixedAlignment;
use typst::container::Spacing;
use typst::content::Content;
use typst::frame::Frame;
use typst::geom::{Abs, Axes, Fr};
use typst::inline::{finalize, paragraph_width, Item, Line, Preparation, Segment, ShapedText, SpanMapper};
use typst::content::TextItem;
use typst::frame::FrameItem;
use typst::geom::Point;

fn text(base: usize, len: usize, width: i64) -> Item {
    Item::Text(ShapedText { base, text_len: len, width: Abs::pt(width) })
}

fn frame(w: i64) -> Frame {
    Frame::soft(Axes::new(Abs::pt(w), Abs::pt(2)))
}

fn prep(items: Vec<Item>) -> Preparation {
    Preparation {
        items,
        spans: SpanMapper::new(),
        hyphenate: None,
        align: FixedAlignment::Start,
        justify: false,
        hang: Abs::zero(),
        cjk_latin_spacing: false,
        fallback: true,
        leading: Abs::pt(5),
        size: Abs::pt(11),
    }
}

/// Text of 3 bytes, spacing, metadata and a frame: offsets 0, 3, 4, 4, 7.
fn sample() -> Preparation {
    prep(vec![text(0, 3, 20), Item::Absolute(Abs::pt(4)), Item::Meta(frame(0)), Item::Frame(frame(9))])
}

#[test]
fn segment_lengths() {
    assert_eq!(Segment::Text(5).len(), 5);
    assert_eq!(Segment::Spacing(Spacing::Fr(Fr(1))).len(), 1);
    assert_eq!(Segment::Box(Content(1), true).len(), 1);
    assert_eq!(Segment::Box(Content(1), false).len(), 3);
    assert_eq!(Segment::Equation(Content(2)).len(), 3);
    assert_eq!(Segment::Meta.len(), 0);
}

#[test]
fn item_lengths_and_widths() {
    assert_eq!(text(0, 7, 12).len(), 7);
    assert_eq!(text(0, 7, 12).width(), Abs::pt(12));
    assert_eq!(Item::Absolute(Abs::pt(4)).len(), 1);
    assert_eq!(Item::Absolute(Abs::pt(4)).width(), Abs::pt(4));
    assert_eq!(Item::Fractional(Fr(2), None).len(), 1);
    assert_eq!(Item::Fractional(Fr(2), None).width(), Abs::zero());
    assert_eq!(Item::Frame(frame(9)).len(), 3);
    assert_eq!(Item::Frame(frame(9)).width(), Abs::pt(9));
    assert_eq!(Item::Meta(frame(9)).len(), 0);
    assert_eq!(Item::Meta(frame(9)).width(), Abs::zero());
}

#[test]
fn text_items_can_be_read_and_changed() {
    let mut item = text(2, 3, 20);
    assert_eq!(item.text(), Some(&ShapedText { base: 2, text_len: 3, width: Abs::pt(20) }));
    if let Some(shaped) = item.text_mut() {
        shaped.width = Abs::pt(25);
    }
    assert_eq!(item.width(), Abs::pt(25));
    let mut spacing = Item::Absolute(Abs::pt(1));
    assert!(spacing.text().is_none());
    assert!(spacing.text_mut().is_none());
}

#[test]
fn find_item_at_offset() {
    let p = sample();
    assert!(matches!(p.find(0), Some(Item::Text(_))));
    assert!(matches!(p.find(2), Some(Item::Text(_))));
    assert!(matches!(p.find(3), Some(Item::Absolute(_))));
    // Metadata holds no text, so the frame holds offset 4.
    assert!(matches!(p.find(4), Some(Item::Frame(_))));
    assert!(matches!(p.find(6), Some(Item::Frame(_))));
    assert!(p.find(7).is_none());
}

#[test]
fn slice_expands_to_item_bounds() {
    let p = sample();
    let (range, items) = p.slice(1..4);
    assert_eq!(range, 0..4);
    assert_eq!(items.len(), 3);
    assert!(matches!(items[0], Item::Text(_)));
    assert!(matches!(items[2], Item::Meta(_)));

    let (range, items) = p.slice(3..7);
    assert_eq!(range, 3..7);
    assert_eq!(items.len(), 3);
    assert!(matches!(items[0], Item::Absolute(_)));
    assert!(matches!(items[2], Item::Frame(_)));
}

#[test]
fn slice_of_empty_range_at_an_item_boundary() {
    let p = sample();
    let (range, items) = p.slice(4..4);
    assert_eq!(range, 4..4);
    assert_eq!(items.len(), 0);
}

#[test]
fn slice_without_items_keeps_the_range() {
    let p = prep(vec![]);
    let (range, items) = p.slice(2..5);
    assert_eq!(range, 2..5);
    assert_eq!(items.len(), 0);
}

fn line<'a>(inner: &'a [Item]) -> Line<'a> {
    Line {
        trimmed: 5..12,
        end: 13,
        first: Some(text(5, 2, 10)),
        inner,
        last: Some(Item::Fractional(Fr(3), None)),
        width: Abs::pt(40),
        justify: false,
        dash: None,
    }
}

#[test]
fn line_items_and_fractions() {
    let inner = vec![Item::Absolute(Abs::pt(-3)), Item::Fractional(Fr(2), None), Item::Frame(frame(9))];
    let l = line(&inner);
    let items = l.items();
    assert_eq!(items.len(), 5);
    assert!(matches!(items[0], Item::Text(_)));
    assert!(matches!(items[4], Item::Fractional(Fr(3), None)));
    assert_eq!(l.fr(), Fr(5));
    assert!(l.has_negative_width_items());

    let positive = vec![Item::Absolute(Abs::pt(3)), Item::Frame(frame(9))];
    assert!(!line(&positive).has_negative_width_items());
    assert_eq!(line(&positive).fr(), Fr(3));
}

#[test]
fn line_slice_counts_from_the_trimmed_start() {
    let inner = vec![Item::Absolute(Abs::pt(-3)), Item::Fractional(Fr(2), None), Item::Frame(frame(9))];
    let l = line(&inner);
    let sliced = l.slice(7..9);
    assert_eq!(sliced.len(), 2);
    assert!(matches!(sliced[0], Item::Absolute(_)));
    assert!(matches!(sliced[1], Item::Fractional(Fr(2), None)));
    let all = l.slice(0..100);
    assert_eq!(all.len(), 5);
}

fn line_frame(h: i64) -> Frame {
    let mut f = Frame::soft(Axes::new(Abs::pt(30), Abs::pt(h)));
    f.push(Point::zero(), FrameItem::Text(TextItem(1)));
    f
}

#[test]
fn finalize_prevents_orphans_and_widows() {
    let frames = vec![line_frame(10), line_frame(10), line_frame(10)];
    let out = finalize(frames, Abs::pt(5), true, true);
    assert_eq!(out.len(), 1);
    assert_eq!(out[0].height(), Abs::pt(40));

    let frames = vec![line_frame(10), line_frame(10), line_frame(10)];
    let out = finalize(frames, Abs::pt(5), false, true);
    assert_eq!(out.len(), 2);
    assert_eq!(out[0].height(), Abs::pt(10));
    assert_eq!(out[1].height(), Abs::pt(25));

    let frames = vec![line_frame(10), line_frame(10), line_frame(10)];
    let out = finalize(frames, Abs::pt(5), false, false);
    assert_eq!(out.len(), 3);
}

#[test]
fn finalize_keeps_an_empty_second_line() {
    let frames = vec![line_frame(10), Frame::soft(Axes::new(Abs::pt(30), Abs::pt(10)))];
    let out = finalize(frames, Abs::pt(5), true, false);
    assert_eq!(out.len(), 2);
    let frames = vec![line_frame(10), line_frame(12)];
    let out = finalize(frames, Abs::pt(5), true, true);
    assert_eq!(out.len(), 1);
    assert_eq!(out[0].height(), Abs::pt(27));
}

fn plain_line<'a>(inner: &'a [Item], width: i64) -> Line<'a> {
    Line {
        trimmed: 0..3,
        end: 3,
        first: None,
        inner,
        last: None,
        width: Abs::pt(width),
        justify: false,
        dash: None,
    }
}

#[test]
fn paragraph_width_fits_the_widest_line() {
    let text_only = vec![text(0, 3, 30)];
    let with_fr = vec![Item::Fractional(Fr(1), None)];
    let lines = vec![plain_line(&text_only, 30), plain_line(&text_only, 50)];
    let region = Axes::new(Abs::pt(100), Abs::pt(200));
    assert_eq!(paragraph_width(&lines, Abs::pt(5), region, false), Abs::pt(55));
    assert_eq!(paragraph_width(&lines, Abs::pt(5), Axes::new(Abs::pt(40), Abs::pt(200)), false), Abs::pt(40));
    assert_eq!(paragraph_width(&lines, Abs::pt(5), region, true), Abs::pt(100));
    let lines = vec![plain_line(&text_only, 30), plain_line(&with_fr, 20)];
    assert_eq!(paragraph_width(&lines, Abs::pt(5), region, false), Abs::pt(100));
    let none: Vec<Line> = vec![];
    assert_eq!(paragraph_width(&none, Abs::pt(5), region, false), Abs::pt(5));
}
