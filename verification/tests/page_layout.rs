use typst::page::{finalize_page, finish_page_run, marginal_areas, page_geometry, Binding, LayoutedPage};
use typst::content::Content;
use typst::frame::Frame;
use typst::geom::{Abs, Axes, Em, Length, Point, Ratio, Rel, Sides, Smart, RATIO_ONE};
use typst::inline::linebreak_link;
use typst::margin::{construct_margin_from_data, Margin, MarginArgs, MarginError, NamedMargins};
use typst::pad::{grow, pad_fragment, pad_pod, shrink, shrink_multiple, PadArgs, PadElem};
use typst::regions::{Region, Regions};
use typst::visualize::Color;
use typst::frame::FrameItem;
use typst::content::TextItem;

fn len(pt: i64) -> Rel<Length> {
    Rel { rel: Ratio(0), abs: Length { abs: Abs::pt(pt), em: Em(0) } }
}

fn named() -> NamedMargins {
    NamedMargins {
        rest: None,
        x: None,
        y: None,
        top: None,
        bottom: None,
        outside: None,
        inside: None,
        left: None,
        right: None,
    }
}

#[test]
fn margin_auto_and_uniform() {
    assert_eq!(Margin::construct(MarginArgs::Auto), Ok(Margin::splat(Some(Smart::Auto))));
    let m = Margin::construct(MarginArgs::Length(len(5))).unwrap();
    assert_eq!(m.left(), Some(Smart::Custom(len(5))));
    assert_eq!(m.bottom(), Some(Smart::Custom(len(5))));
    assert_eq!(m.two_sided, None);
    assert_eq!(Margin::default(), Margin::splat(Some(Smart::Auto)));
}

#[test]
fn margin_rest_and_axes() {
    let args = NamedMargins {
        rest: Some(Smart::Custom(len(1))),
        y: Some(Smart::Custom(len(2))),
        left: Some(Smart::Custom(len(3))),
        ..named()
    };
    let m = Margin::construct(MarginArgs::Named(args)).unwrap();
    assert_eq!(m.left(), Some(Smart::Custom(len(3))));
    assert_eq!(m.right(), Some(Smart::Custom(len(1))));
    assert_eq!(m.top(), Some(Smart::Custom(len(2))));
    assert_eq!(m.bottom(), Some(Smart::Custom(len(2))));
    assert_eq!(m.two_sided, Some(false));
}

#[test]
fn margin_inside_outside_make_two_sided() {
    let args = NamedMargins {
        inside: Some(Smart::Custom(len(4))),
        outside: Some(Smart::Auto),
        ..named()
    };
    let m = Margin::construct(MarginArgs::Named(args)).unwrap();
    assert_eq!(m.left(), Some(Smart::Custom(len(4))));
    assert_eq!(m.right(), Some(Smart::Auto));
    assert_eq!(m.two_sided, Some(true));
    let untouched = Margin::construct(MarginArgs::Named(NamedMargins { top: Some(Smart::Auto), ..named() })).unwrap();
    assert_eq!(untouched.two_sided, None);
    assert_eq!(untouched.left(), None);
}

#[test]
fn margin_mixed_sides_error() {
    let args = NamedMargins {
        inside: Some(Smart::Auto),
        left: Some(Smart::Auto),
        ..named()
    };
    assert_eq!(Margin::construct(MarginArgs::Named(args)), Err(MarginError::MixedSides));
    let data = [None, None, None, Some(Smart::Auto), None, None, Some(Smart::Auto)];
    assert_eq!(construct_margin_from_data(data), Err(MarginError::MixedSides));
}

#[test]
fn pad_arguments_fall_back() {
    let args = PadArgs {
        rest: None,
        all: Some(len(1)),
        x: Some(len(2)),
        y: None,
        left: Some(len(3)),
        top: None,
        right: None,
        bottom: None,
        body: Content(7),
    };
    let e = PadElem::construct(args);
    assert_eq!(e.left, len(3));
    assert_eq!(e.right, len(2));
    assert_eq!(e.top, len(1));
    assert_eq!(e.bottom, len(1));
    let none = PadElem::construct(PadArgs { all: None, x: None, left: None, ..args });
    assert_eq!(none.left, len(0));
}

fn inset(rel: i64, abs: i64) -> Sides<Rel<Abs>> {
    let side = Rel { rel: Ratio(rel), abs: Abs::pt(abs) };
    Sides { left: side, top: side, right: side, bottom: side }
}

#[test]
fn shrink_and_grow_are_inverse_for_absolute_insets() {
    let size = Axes::new(Abs::pt(100), Abs::pt(50));
    let pad = inset(0, 5);
    assert_eq!(shrink(size, &pad), Axes::new(Abs::pt(90), Abs::pt(40)));
    let mut frame = Frame::soft(Axes::new(Abs::pt(90), Abs::pt(40)));
    frame.push(Point::zero(), FrameItem::Text(TextItem(1)));
    grow(&mut frame, &pad);
    assert_eq!(frame.size(), size);
    assert_eq!(frame.items()[0].0, Point::new(Abs::pt(5), Abs::pt(5)));
}

#[test]
fn shrink_and_grow_with_relative_insets() {
    let size = Axes::new(Abs::pt(100), Abs::pt(100));
    let pad = inset(RATIO_ONE / 10, 0);
    assert_eq!(shrink(size, &pad), Axes::new(Abs::pt(80), Abs::pt(80)));
    let mut frame = Frame::soft(Axes::new(Abs::pt(80), Abs::pt(80)));
    grow(&mut frame, &pad);
    assert_eq!(frame.size(), size);
}

#[test]
fn shrink_multiple_shrinks_every_region() {
    let mut size = Axes::new(Abs::pt(100), Abs::pt(100));
    let mut full = Abs::pt(100);
    let mut backlog = vec![Abs::pt(50), Abs::pt(20)];
    let mut last = Some(Abs::pt(30));
    shrink_multiple(&mut size, &mut full, &mut backlog, &mut last, &inset(0, 2));
    assert_eq!(size, Axes::new(Abs::pt(96), Abs::pt(96)));
    assert_eq!(full, Abs::pt(96));
    assert_eq!(backlog, vec![Abs::pt(46), Abs::pt(16)]);
    assert_eq!(last, Some(Abs::pt(26)));
}

#[test]
fn link_breaks_between_classes() {
    let breaks = linebreak_link("a1-b");
    assert_eq!(breaks, vec![1, 3]);
    assert_eq!(linebreak_link("ab"), Vec::<usize>::new());
    assert_eq!(linebreak_link("a//b"), vec![2, 3]);
}

#[test]
fn link_never_breaks_after_open_delimiter() {
    assert_eq!(linebreak_link("a(b"), vec![1]);
    assert_eq!(linebreak_link("[x"), Vec::<usize>::new());
}

#[test]
fn link_long_pieces_break_everywhere() {
    let link = "abcdefghijklmnopqrst1";
    let breaks = linebreak_link(link);
    let expected: Vec<usize> = (1..=20).collect();
    assert_eq!(breaks, expected);
}

#[test]
fn link_breaks_use_byte_offsets() {
    assert_eq!(linebreak_link("é1"), vec![2]);
}

#[test]
fn regions_next_and_iterate() {
    let backlog = [Abs::pt(30), Abs::pt(40)];
    let mut regions = Regions {
        size: Axes::new(Abs::pt(10), Abs::pt(20)),
        expand: Axes::new(false, true),
        full: Abs::pt(25),
        backlog: &backlog,
        last: Some(Abs::pt(50)),
    };
    assert_eq!(regions.base(), Axes::new(Abs::pt(10), Abs::pt(25)));
    assert!(regions.may_break());
    assert!(regions.may_progress());
    let sizes = regions.iter(5);
    let heights: Vec<Abs> = sizes.iter().map(|s| s.y).collect();
    assert_eq!(heights, vec![Abs::pt(20), Abs::pt(30), Abs::pt(40), Abs::pt(50), Abs::pt(50)]);
    regions.next();
    assert_eq!(regions.size.y, Abs::pt(30));
    assert_eq!(regions.full, Abs::pt(30));
    regions.next();
    regions.next();
    assert_eq!(regions.size.y, Abs::pt(50));
    assert!(!regions.may_progress());
    assert!(regions.may_break());
}

#[test]
fn regions_single_and_repeated() {
    let size = Axes::new(Abs::pt(10), Abs::pt(20));
    let single = Regions::from_region(Region::new(size, Axes::new(true, false)));
    assert!(!single.may_break());
    assert_eq!(single.iter(3).len(), 1);
    let mut repeated = Regions::repeat(size, Axes::new(false, false));
    assert!(repeated.may_break());
    assert!(!repeated.may_progress());
    repeated.size.y = Abs::zero();
    assert!(repeated.is_full());
}

#[test]
fn regions_map_applies_to_every_region() {
    let backlog = [Abs::pt(30)];
    let regions = Regions {
        size: Axes::new(Abs::pt(10), Abs::pt(20)),
        expand: Axes::new(false, false),
        full: Abs::pt(25),
        backlog: &backlog,
        last: Some(Abs::pt(50)),
    };
    let mut store = Vec::new();
    let mapped = regions.map(&mut store, |s: Axes<Abs>| {
        Axes::new(s.x, Abs::raw(s.y.to_raw() / 2))
    });
    assert_eq!(mapped.size, Axes::new(Abs::pt(10), Abs::pt(10)));
    assert_eq!(mapped.full, Abs::raw(12500));
    assert_eq!(mapped.backlog, &[Abs::pt(15)]);
    assert_eq!(mapped.last, Some(Abs::pt(25)));
    let _ = Color::rgb(0, 0, 0);
}

#[test]
fn padding_shrinks_the_regions_and_grows_the_frames() {
    let mut e = PadElem::construct(PadArgs {
        rest: None,
        all: Some(Rel { rel: Ratio(0), abs: Length { abs: Abs::zero(), em: Em(500_000) } }),
        x: None,
        y: None,
        left: None,
        top: None,
        right: None,
        bottom: None,
        body: Content(1),
    });
    e.right = Rel { rel: Ratio(0), abs: Length { abs: Abs::pt(3), em: Em(0) } };
    let padding = e.padding(Abs::pt(10));
    assert_eq!(padding.left, Rel { rel: Ratio(0), abs: Abs::pt(5) });
    assert_eq!(padding.right, Rel { rel: Ratio(0), abs: Abs::pt(3) });
    let heights = [Abs::pt(60)];
    let regions = Regions {
        size: Axes::new(Abs::pt(100), Abs::pt(50)),
        expand: Axes::new(true, false),
        full: Abs::pt(70),
        backlog: &heights,
        last: Some(Abs::pt(80)),
    };
    let mut backlog = Vec::new();
    let pod = pad_pod(&regions, &padding, &mut backlog);
    assert_eq!(pod.size, Axes::new(Abs::pt(92), Abs::pt(40)));
    assert_eq!(pod.full, Abs::pt(60));
    assert_eq!(pod.backlog, &[Abs::pt(50)][..]);
    assert_eq!(pod.last, Some(Abs::pt(70)));
    assert_eq!(pod.expand, Axes::new(true, false));
    let mut frame = Frame::soft(Axes::new(Abs::pt(92), Abs::pt(40)));
    frame.push(Point::zero(), FrameItem::Text(TextItem(1)));
    let frames = pad_fragment(vec![frame], &padding);
    assert_eq!(frames[0].size(), Axes::new(Abs::pt(100), Abs::pt(50)));
    assert_eq!(frames[0].items()[0].0, Point::new(Abs::pt(5), Abs::pt(5)));
}

#[test]
fn page_geometry_defaults_and_flips() {
    let m = Margin::splat(None);
    let g = page_geometry(Some(Abs::pt(100)), Some(Abs::pt(200)), false, &m, Abs::pt(10));
    assert_eq!(g.size, Axes::new(Some(Abs::pt(100)), Some(Abs::pt(200))));
    assert_eq!(g.margin.left, Abs::raw(11_904));
    assert_eq!(g.margin.bottom, Abs::raw(11_904));
    assert_eq!(g.area, Axes::new(Some(Abs::raw(76_192)), Some(Abs::raw(176_192))));
    let f = page_geometry(Some(Abs::pt(100)), Some(Abs::pt(200)), true, &m, Abs::pt(10));
    assert_eq!(f.size, Axes::new(Some(Abs::pt(200)), Some(Abs::pt(100))));
    let open = page_geometry(None, None, false, &Margin::splat(Some(Smart::Auto)), Abs::pt(10));
    assert_eq!(open.margin.top, Abs::raw(70_866));
    assert_eq!(open.area, Axes::new(None, None));
}

#[test]
fn page_geometry_resolves_set_margins() {
    let mut m = Margin::splat(None);
    m.sides.left = Some(Smart::Custom(Rel { rel: Ratio(RATIO_ONE / 10), abs: Length { abs: Abs::pt(2), em: Em(0) } }));
    m.sides.top = Some(Smart::Custom(Rel { rel: Ratio(0), abs: Length { abs: Abs::zero(), em: Em(RATIO_ONE) } }));
    let g = page_geometry(Some(Abs::pt(100)), Some(Abs::pt(200)), false, &m, Abs::pt(10));
    assert_eq!(g.margin.left, Abs::pt(12));
    assert_eq!(g.margin.top, Abs::pt(10));
    assert_eq!(g.area.x, Some(Abs::raw(100_000 - 12_000 - 11_904)));
}

#[test]
fn pages_of_a_run_get_their_marginals() {
    let m = Margin::splat(None);
    let g = page_geometry(Some(Abs::pt(100)), Some(Abs::pt(200)), false, &m, Abs::pt(10));
    let (header, footer, full) = marginal_areas(Axes::new(Abs::pt(80), Abs::pt(150)), &g.margin, Abs::pt(3), Abs::pt(4));
    assert_eq!(header, Axes::new(Abs::pt(80), Abs::raw(11_904 - 3_000)));
    assert_eq!(footer, Axes::new(Abs::pt(80), Abs::raw(11_904 - 4_000)));
    assert_eq!(full, Axes::new(Abs::raw(80_000 + 23_808), Abs::raw(150_000 + 23_808)));
    let frames = vec![Frame::soft(Axes::new(Abs::pt(80), Abs::pt(150))), Frame::soft(Axes::new(Abs::pt(80), Abs::pt(40)))];
    let marginals = vec![(Some(Frame::soft(header)), None, None, None), (None, Some(Frame::soft(footer)), None, None)];
    let pages = finish_page_run(frames, &g, Binding::Left, false, Smart::Auto, marginals);
    assert_eq!(pages.len(), 2);
    assert_eq!(pages[1].inner.size(), Axes::new(Abs::pt(80), Abs::pt(40)));
    assert!(pages[0].header.is_some() && pages[0].footer.is_none());
    assert!(pages[1].footer.is_some());
    assert_eq!(pages[0].margin, g.margin);
}

#[test]
fn shrinking_undoes_growing_with_relative_padding() {
    let inset = Sides {
        left: Rel { rel: Ratio(100_000), abs: Abs::zero() },
        top: Rel { rel: Ratio(0), abs: Abs::pt(2) },
        right: Rel { rel: Ratio(0), abs: Abs::pt(5) },
        bottom: Rel { rel: Ratio(250_000), abs: Abs::zero() },
    };
    let mut frame = Frame::soft(Axes::new(Abs::pt(100), Abs::pt(50)));
    grow(&mut frame, &inset);
    assert_eq!(frame.size(), Axes::new(Abs(116_666), Abs(69_333)));
    assert_eq!(shrink(frame.size(), &inset), Axes::new(Abs::pt(100), Abs::pt(50)));
}

fn tag_at(items: &[(Point, FrameItem)], i: usize) -> (Point, u64) {
    match &items[i] {
        (pos, FrameItem::Tag(t)) => (*pos, t.0),
        _ => panic!("a tag is expected"),
    }
}

#[test]
fn finalized_two_sided_pages_swap_margins_and_take_pending_tags() {
    let mut inner = Frame::soft(Axes::new(Abs::pt(100), Abs::pt(200)));
    inner.push(Point::zero(), FrameItem::Tag(typst::content::Tag(9)));
    let mut header = Frame::soft(Axes::new(Abs::pt(100), Abs::pt(5)));
    header.push(Point::new(Abs::pt(1), Abs::zero()), FrameItem::Tag(typst::content::Tag(8)));
    let page = LayoutedPage {
        inner,
        margin: Sides { left: Abs::pt(10), top: Abs::pt(5), right: Abs::pt(20), bottom: Abs::pt(5) },
        binding: Binding::Left,
        two_sided: true,
        header: Some(header),
        footer: None,
        background: None,
        foreground: None,
        fill: Smart::Auto,
    };
    let mut tags = vec![typst::content::Tag(3)];
    let finished = finalize_page(&mut tags, page, 2, 7);
    assert!(tags.is_empty());
    assert_eq!(finished.number, 7);
    assert_eq!(finished.frame.size(), Axes::new(Abs::pt(130), Abs::pt(210)));
    let items = finished.frame.items();
    assert_eq!(items.len(), 3);
    assert_eq!(tag_at(items, 0), (Point::zero(), 3));
    assert_eq!(tag_at(items, 1), (Point::new(Abs::pt(21), Abs::zero()), 8));
    assert_eq!(tag_at(items, 2), (Point::new(Abs::pt(20), Abs::pt(5)), 9));
}

#[test]
fn bindings_swap_on_alternate_pages() {
    assert!(!Binding::Left.swap(1));
    assert!(Binding::Left.swap(2));
    assert!(Binding::Right.swap(1));
    assert!(!Binding::Right.swap(2));
}

#[test]
fn negative_relative_padding_round_trips_within_a_unit() {
    let inset = Sides {
        left: Rel { rel: Ratio(-500_000), abs: Abs::zero() },
        top: Rel { rel: Ratio(0), abs: Abs::zero() },
        right: Rel { rel: Ratio(0), abs: Abs::zero() },
        bottom: Rel { rel: Ratio(0), abs: Abs::zero() },
    };
    let mut frame = Frame::soft(Axes::new(Abs::pt(100), Abs::pt(50)));
    grow(&mut frame, &inset);
    assert_eq!(frame.size(), Axes::new(Abs(66_666), Abs::pt(50)));
    assert_eq!(shrink(frame.size(), &inset), Axes::new(Abs(99_999), Abs::pt(50)));
}
