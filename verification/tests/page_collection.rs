use typst::content::{Location, Span};
use typst::pages::{plan_pages, PageSource, 
    collect_page_items, migrate_unterminated_tags, PageChild, PageItem, PagePair, Parity, TagKind,
};

fn pair(child: PageChild, i: u64) -> PagePair<u32> {
    PagePair { child, span: Span(100 + i), styles: i as u32 }
}

fn start(loc: u64) -> PageChild {
    PageChild::Tag { kind: TagKind::Start, location: Location(loc) }
}

fn end(loc: u64) -> PageChild {
    PageChild::Tag { kind: TagKind::End, location: Location(loc) }
}

fn pagebreak(weak: bool, to: Option<Parity>, boundary: bool) -> PageChild {
    PageChild::Pagebreak { weak, to, boundary }
}

fn strong() -> PageChild {
    pagebreak(false, None, false)
}

fn pairs(children: &[PageChild]) -> Vec<PagePair<u32>> {
    children.iter().enumerate().map(|(i, c)| pair(*c, i as u64)).collect()
}

fn kinds(children: &[PagePair<u32>]) -> Vec<PageChild> {
    children.iter().map(|p| p.child).collect()
}

#[test]
fn migration_moves_open_start_tags_past_pagebreaks() {
    let mut children = pairs(&[
        PageChild::Other,
        start(1),
        start(2),
        end(2),
        strong(),
        strong(),
        PageChild::Other,
    ]);
    let r = migrate_unterminated_tags(&mut children, 0, 4);
    assert_eq!(r, 3);
    assert_eq!(
        kinds(&children),
        vec![PageChild::Other, start(2), end(2), strong(), strong(), start(1), PageChild::Other]
    );
    // The moved tag keeps its span and styles.
    assert_eq!(children[5], pair(start(1), 1));
}

#[test]
fn migration_keeps_tags_that_end_before_the_pagebreak() {
    let mut children = pairs(&[end(3), start(4), end(4), strong()]);
    let r = migrate_unterminated_tags(&mut children, 0, 3);
    assert_eq!(r, 3);
    assert_eq!(kinds(&children), vec![end(3), start(4), end(4), strong()]);
}

#[test]
fn migration_works_on_the_tail_only() {
    let mut children = pairs(&[start(1), PageChild::Other, start(2), strong()]);
    let r = migrate_unterminated_tags(&mut children, 1, 2);
    assert_eq!(r, 1);
    assert_eq!(kinds(&children), vec![start(1), PageChild::Other, strong(), start(2)]);
}

#[test]
fn migration_without_trailing_tags_changes_nothing() {
    let mut children = pairs(&[PageChild::Other, strong()]);
    let r = migrate_unterminated_tags(&mut children, 0, 1);
    assert_eq!(r, 1);
    assert_eq!(kinds(&children), vec![PageChild::Other, strong()]);
}

#[test]
fn empty_document_has_one_empty_page() {
    let mut children: Vec<PagePair<u32>> = vec![];
    let items = collect_page_items(&mut children, 7);
    assert_eq!(items, vec![PageItem::Run { start: 0, end: 0, initial: 7, key: None }]);
}

#[test]
fn strong_pagebreaks_stage_empty_pages() {
    let mut children = pairs(&[strong(), strong()]);
    let items = collect_page_items(&mut children, 9);
    assert_eq!(
        items,
        vec![
            PageItem::Run { start: 0, end: 0, initial: 9, key: Some(Span(100)) },
            PageItem::Run { start: 1, end: 1, initial: 0, key: Some(Span(101)) },
            PageItem::Run { start: 2, end: 2, initial: 1, key: None },
        ]
    );
}

#[test]
fn weak_pagebreak_adds_no_page() {
    let mut children = pairs(&[PageChild::Other, pagebreak(true, None, false), PageChild::Other]);
    let items = collect_page_items(&mut children, 9);
    assert_eq!(
        items,
        vec![
            PageItem::Run { start: 0, end: 1, initial: 9, key: Some(Span(100)) },
            PageItem::Run { start: 2, end: 3, initial: 1, key: Some(Span(102)) },
        ]
    );
}

#[test]
fn start_tag_moves_to_the_next_page() {
    let mut children =
        pairs(&[PageChild::Other, start(1), strong(), PageChild::Other, end(1)]);
    let items = collect_page_items(&mut children, 0);
    assert_eq!(
        kinds(&children),
        vec![PageChild::Other, strong(), start(1), PageChild::Other, end(1)]
    );
    assert_eq!(
        items,
        vec![
            PageItem::Run { start: 0, end: 1, initial: 0, key: Some(Span(100)) },
            PageItem::Run { start: 2, end: 5, initial: 2, key: Some(Span(101)) },
        ]
    );
}

#[test]
fn tags_between_pages_become_a_tag_item() {
    let mut children = pairs(&[end(5), strong()]);
    let items = collect_page_items(&mut children, 3);
    assert_eq!(
        items,
        vec![
            PageItem::Tags { start: 0, end: 1 },
            PageItem::Run { start: 1, end: 1, initial: 3, key: Some(Span(101)) },
            PageItem::Run { start: 2, end: 2, initial: 1, key: None },
        ]
    );
}

#[test]
fn trailing_tags_replace_a_staged_page() {
    let mut children = pairs(&[PageChild::Other, strong(), end(5)]);
    let items = collect_page_items(&mut children, 3);
    assert_eq!(
        items,
        vec![
            PageItem::Run { start: 0, end: 1, initial: 3, key: Some(Span(100)) },
            PageItem::Run { start: 2, end: 3, initial: 1, key: Some(Span(102)) },
        ]
    );
}

#[test]
fn parity_and_boundary_pagebreaks() {
    let mut children = pairs(&[
        PageChild::Other,
        pagebreak(false, Some(Parity::Odd), true),
        PageChild::Other,
    ]);
    let items = collect_page_items(&mut children, 4);
    assert_eq!(
        items,
        vec![
            PageItem::Run { start: 0, end: 1, initial: 4, key: Some(Span(100)) },
            PageItem::Parity { parity: Parity::Odd, styles: 1, key: Some(Span(101)) },
            PageItem::Run { start: 2, end: 3, initial: 4, key: Some(Span(102)) },
        ]
    );
}

#[test]
fn collection_keeps_every_child() {
    let original = pairs(&[
        PageChild::Other,
        start(1),
        start(2),
        end(2),
        strong(),
        pagebreak(true, Some(Parity::Even), false),
        PageChild::Other,
        end(1),
        strong(),
    ]);
    let mut children = original.clone();
    let items = collect_page_items(&mut children, 0);
    let mut before: Vec<u64> = original.iter().map(|p| p.span.0).collect();
    let mut after: Vec<u64> = children.iter().map(|p| p.span.0).collect();
    before.sort();
    after.sort();
    assert_eq!(before, after);
    assert_eq!(
        kinds(&children),
        vec![
            PageChild::Other,
            start(2),
            end(2),
            strong(),
            pagebreak(true, Some(Parity::Even), false),
            start(1),
            PageChild::Other,
            end(1),
            strong(),
        ]
    );
    assert_eq!(
        items,
        vec![
            PageItem::Run { start: 0, end: 3, initial: 0, key: Some(Span(100)) },
            PageItem::Parity { parity: Parity::Even, styles: 5, key: Some(Span(105)) },
            PageItem::Run { start: 5, end: 8, initial: 5, key: Some(Span(101)) },
            PageItem::Run { start: 9, end: 9, initial: 8, key: None },
        ]
    );
}

#[test]
fn pages_are_planned_with_parity_and_tags() {
    let items: Vec<PageItem<u32>> = vec![
        PageItem::Run { start: 0, end: 1, initial: 0, key: None },
        PageItem::Parity { parity: Parity::Odd, styles: 0, key: None },
        PageItem::Tags { start: 1, end: 2 },
        PageItem::Run { start: 2, end: 3, initial: 0, key: None },
        PageItem::Parity { parity: Parity::Even, styles: 0, key: None },
        PageItem::Tags { start: 3, end: 4 },
    ];
    let (sources, tags) = plan_pages(&items, &vec![1, 2]);
    assert_eq!(
        sources,
        vec![
            PageSource::Run { item: 0, page: 0 },
            PageSource::Blank { item: 1 },
            PageSource::Run { item: 3, page: 0 },
            PageSource::Run { item: 3, page: 1 },
            PageSource::Blank { item: 4 },
        ]
    );
    assert_eq!(tags, vec![(2, Some(2)), (5, None)]);
    assert!(Parity::Even.matches(4) && !Parity::Odd.matches(4));
}
