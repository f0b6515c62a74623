//! Slicing the flow-level children of a document into page runs.
//!
//! The children are a flat list of flow-level content, introspection tags and
//! pagebreaks. Page collection splits it into runs of content that are laid
//! out as pages, tags that fall between pages, and parity instructions, and
//! moves start tags that are still open at a pagebreak to after it.

use vstd::prelude::*;
use crate::content::{Location, Span};

verus! {

/// Whether a tag starts or ends an element.
#[derive(Clone, Copy, PartialEq, Eq, Structural, Hash, Debug)]
pub enum TagKind {
    /// The tag that precedes an element's content.
    Start,
    /// The tag that follows an element's content.
    End,
}

/// The parity that a pagebreak asks the next page number to have.
#[derive(Clone, Copy, PartialEq, Eq, Structural, Hash, Debug)]
pub enum Parity {
    /// The next page is even-numbered.
    Even,
    /// The next page is odd-numbered.
    Odd,
}

/// What page collection reads of a flow-level child.
#[derive(Clone, Copy, PartialEq, Eq, Hash, Debug)]
pub enum PageChild {
    /// A pagebreak, with the properties that its styles resolve to.
    Pagebreak {
        /// Whether the pagebreak is weak, i.e. adds no page of its own.
        weak: bool,
        /// The parity that the next page should have.
        to: Option<Parity>,
        /// Whether the pagebreak closes the scope of a page set rule.
        boundary: bool,
    },
    /// An introspection tag.
    Tag {
        /// Whether the tag starts or ends its element.
        kind: TagKind,
        /// The location of the tagged element.
        location: Location,
    },
    /// Any other flow-level content.
    Other,
}

/// A flow-level child together with its source span and styles.
#[derive(Clone, Copy, PartialEq, Eq, Hash, Debug)]
pub struct PagePair<S> {
    /// What the child is.
    pub child: PageChild,
    /// The child's source span.
    pub span: Span,
    /// The styles that apply to the child.
    pub styles: S,
}

/// Whether a child is an introspection tag.
pub open spec fn is_tag<S>(p: PagePair<S>) -> bool {
    p.child is Tag
}

/// Whether a child is a pagebreak.
pub open spec fn is_pagebreak<S>(p: PagePair<S>) -> bool {
    p.child is Pagebreak
}

/// Where the run of tags that ends right before `mid` starts.
pub open spec fn tag_run_start<S>(t: Seq<PagePair<S>>, mid: int) -> int
    decreases mid,
{
    if mid <= 0 {
        0
    } else if is_tag(t[mid - 1]) {
        tag_run_start(t, mid - 1)
    } else {
        mid
    }
}

/// Where the run of pagebreaks that starts at `i` ends.
pub open spec fn break_run_end<S>(t: Seq<PagePair<S>>, i: int) -> int
    decreases t.len() - i,
{
    if i >= t.len() {
        i
    } else if is_pagebreak(t[i]) {
        break_run_end(t, i + 1)
    } else {
        i
    }
}

/// Whether the end tag of the element at `loc` is among `s`.
pub open spec fn ends_among<S>(s: Seq<PagePair<S>>, loc: Location) -> bool {
    exists|i: int|
        0 <= i < s.len() && (#[trigger] s[i]).child == (PageChild::Tag {
            kind: TagKind::End,
            location: loc,
        })
}

/// The group that migration sorts a child into: tags whose element ends among
/// `terminators` (-1), pagebreaks (0), and tags whose element stays open (1).
pub open spec fn migration_key<S>(p: PagePair<S>, terminators: Seq<PagePair<S>>) -> int {
    match p.child {
        PageChild::Tag { location, .. } => if ends_among(terminators, location) {
            -1
        } else {
            1
        },
        _ => 0,
    }
}

/// The children of `s` in group `g`, in their order.
pub open spec fn migration_group<S>(
    s: Seq<PagePair<S>>,
    terminators: Seq<PagePair<S>>,
    g: int,
) -> Seq<PagePair<S>>
    decreases s.len(),
{
    if s.len() == 0 {
        Seq::empty()
    } else {
        let rest = migration_group(s.drop_last(), terminators, g);
        if migration_key(s.last(), terminators) == g {
            rest.push(s.last())
        } else {
            rest
        }
    }
}

/// The children `t` after migrating the open start tags before the
/// pagebreaks at `mid` to after them, and the position right after the last
/// tag that stays in front of them.
///
/// The tags that end right before `mid` and the pagebreaks that start at
/// `mid` are sorted stably into three groups: tags whose element also ends
/// among those tags, then the pagebreaks, then the tags whose element stays
/// open.
pub open spec fn spec_migrated<S>(t: Seq<PagePair<S>>, mid: int) -> (Seq<PagePair<S>>, int) {
    let start = tag_run_start(t, mid);
    let end = break_run_end(t, mid);
    let region = t.subrange(start, end);
    let terminators = t.subrange(start, mid);
    let first = migration_group(region, terminators, -1);
    let sorted = first + migration_group(region, terminators, 0) + migration_group(
        region,
        terminators,
        1,
    );
    (t.subrange(0, start) + sorted + t.subrange(end, t.len() as int), start + first.len())
}

proof fn lemma_group_len<S>(s: Seq<PagePair<S>>, terminators: Seq<PagePair<S>>, g: int)
    ensures
        migration_group(s, terminators, g).len() <= s.len(),
    decreases s.len(),
{
    if s.len() > 0 {
        lemma_group_len(s.drop_last(), terminators, g);
    }
}

proof fn lemma_groups_cover<S>(s: Seq<PagePair<S>>, terminators: Seq<PagePair<S>>)
    ensures
        migration_group(s, terminators, -1).len() + migration_group(s, terminators, 0).len()
            + migration_group(s, terminators, 1).len() == s.len(),
    decreases s.len(),
{
    if s.len() > 0 {
        lemma_groups_cover(s.drop_last(), terminators);
    }
}

/// Migration keeps the number of children, and the position it returns lies
/// within them.
proof fn lemma_migrated_len<S>(t: Seq<PagePair<S>>, mid: int)
    requires
        0 <= mid <= t.len(),
    ensures
        spec_migrated(t, mid).0.len() == t.len(),
        tag_run_start(t, mid) <= spec_migrated(t, mid).1 <= break_run_end(t, mid) <= t.len(),
{
    lemma_tag_run_start(t, mid);
    lemma_break_run_end(t, mid);
    let start = tag_run_start(t, mid);
    let end = break_run_end(t, mid);
    lemma_groups_cover(t.subrange(start, end), t.subrange(start, mid));
}

proof fn lemma_tag_run_start<S>(t: Seq<PagePair<S>>, mid: int)
    requires
        0 <= mid <= t.len(),
    ensures
        0 <= tag_run_start(t, mid) <= mid,
        forall|j: int| tag_run_start(t, mid) <= j < mid ==> is_tag(#[trigger] t[j]),
    decreases mid,
{
    if mid > 0 && is_tag(t[mid - 1]) {
        lemma_tag_run_start(t, mid - 1);
    }
}

proof fn lemma_break_run_end<S>(t: Seq<PagePair<S>>, i: int)
    requires
        0 <= i <= t.len(),
    ensures
        i <= break_run_end(t, i) <= t.len(),
        forall|j: int| i <= j < break_run_end(t, i) ==> is_pagebreak(#[trigger] t[j]),
    decreases t.len() - i,
{
    if i < t.len() && is_pagebreak(t[i]) {
        lemma_break_run_end(t, i + 1);
    }
}

/// Whether a child is an introspection tag.
fn child_is_tag(c: &PageChild) -> (r: bool)
    ensures
        r == (*c is Tag),
{
    match c {
        PageChild::Tag { .. } => true,
        _ => false,
    }
}

/// Whether a child is a pagebreak.
fn child_is_pagebreak(c: &PageChild) -> (r: bool)
    ensures
        r == (*c is Pagebreak),
{
    match c {
        PageChild::Pagebreak { .. } => true,
        _ => false,
    }
}

/// Whether the end tag of the element at `loc` lies in `children[lo..hi]`.
fn ends_within<S: Copy>(children: &Vec<PagePair<S>>, lo: usize, hi: usize, loc: Location) -> (r:
    bool)
    requires
        lo <= hi <= children@.len(),
    ensures
        r == ends_among(children@.subrange(lo as int, hi as int), loc),
{
    let ghost s = children@.subrange(lo as int, hi as int);
    let mut j: usize = lo;
    while j < hi
        invariant
            lo <= j <= hi <= children@.len(),
            s == children@.subrange(lo as int, hi as int),
            forall|i: int|
                0 <= i < j - lo ==> (#[trigger] s[i]).child != (PageChild::Tag {
                    kind: TagKind::End,
                    location: loc,
                }),
        decreases hi - j,
    {
        let p = children[j];
        match p.child {
            PageChild::Tag { kind: TagKind::End, location } => {
                if location == loc {
                    assert(s[j - lo] == p);
                    return true;
                }
            },
            _ => {},
        }
        assert(s[j - lo] == p);
        j += 1;
    }
    false
}

/// Moves the start tags that are still open right before the pagebreaks at
/// `children[from + mid]` to after those pagebreaks, and returns the position
/// (relative to `from`) right after the last tag that stays in front.
///
/// A typical case is a show rule that puts a pagebreak before an element: the
/// element's start tag would otherwise end up on the page before its content.
pub fn migrate_unterminated_tags<S: Copy>(
    children: &mut Vec<PagePair<S>>,
    from: usize,
    mid: usize,
) -> (r: usize)
    requires
        from + mid <= old(children)@.len(),
    ensures
        final(children)@ == old(children)@.subrange(0, from as int) + spec_migrated(
            old(children)@.subrange(from as int, old(children)@.len() as int),
            mid as int,
        ).0,
        r == spec_migrated(
            old(children)@.subrange(from as int, old(children)@.len() as int),
            mid as int,
        ).1,
        final(children)@.len() == old(children)@.len(),
        r <= old(children)@.len() - from,
{
    let ghost t = children@.subrange(from as int, children@.len() as int);
    let n: usize = children.len();
    let at: usize = from + mid;

    // The run of tags that ends at `mid`.
    let mut start: usize = at;
    while start > from && child_is_tag(&children[start - 1].child)
        invariant
            from <= start <= at <= n == children@.len(),
            t == children@.subrange(from as int, n as int),
            tag_run_start(t, mid as int) == tag_run_start(t, start - from),
        decreases start,
    {
        assert(t[start - from - 1] == children@[start - 1]);
        start -= 1;
    }
    proof {
        if start > from {
            assert(t[start - from - 1] == children@[start - 1]);
        }
        assert(tag_run_start(t, mid as int) == start - from);
    }

    // The run of pagebreaks that starts at `mid`.
    let mut end: usize = at;
    while end < n && child_is_pagebreak(&children[end].child)
        invariant
            from <= at <= end <= n == children@.len(),
            t == children@.subrange(from as int, n as int),
            break_run_end(t, mid as int) == break_run_end(t, end - from),
        decreases n - end,
    {
        assert(t[end - from] == children@[end as int]);
        end += 1;
    }
    proof {
        if end < n {
            assert(t[end - from] == children@[end as int]);
        }
        assert(break_run_end(t, mid as int) == end - from);
    }

    // Sort the region stably into its three groups.
    let ghost region = t.subrange(start - from, end - from);
    let ghost terminators = t.subrange(start - from, mid as int);
    assert(region =~= children@.subrange(start as int, end as int));
    assert(terminators =~= children@.subrange(start as int, at as int));
    let mut first: Vec<PagePair<S>> = Vec::new();
    let mut breaks: Vec<PagePair<S>> = Vec::new();
    let mut open: Vec<PagePair<S>> = Vec::new();
    let mut i: usize = start;
    while i < end
        invariant
            from <= start <= i <= end <= n == children@.len(),
            start <= at <= end,
            region == children@.subrange(start as int, end as int),
            terminators == children@.subrange(start as int, at as int),
            first@ == migration_group(region.take(i - start), terminators, -1),
            breaks@ == migration_group(region.take(i - start), terminators, 0),
            open@ == migration_group(region.take(i - start), terminators, 1),
        decreases end - i,
    {
        let p = children[i];
        proof {
            let k = i - start;
            assert(region.take(k + 1).drop_last() =~= region.take(k));
            assert(region.take(k + 1).last() == p);
        }
        match p.child {
            PageChild::Tag { location, .. } => {
                if ends_within(children, start, at, location) {
                    first.push(p);
                } else {
                    open.push(p);
                }
            },
            _ => {
                breaks.push(p);
            },
        }
        i += 1;
    }
    assert(region.take(end - start) =~= region);
    proof {
        lemma_group_len(region, terminators, -1);
    }
    let r: usize = start - from + first.len();

    // Reassemble the children.
    let mut out: Vec<PagePair<S>> = Vec::new();
    let mut j: usize = 0;
    while j < start
        invariant
            j <= start <= n == children@.len(),
            out@ == children@.subrange(0, j as int),
        decreases start - j,
    {
        out.push(children[j]);
        j += 1;
    }
    out.append(&mut first);
    out.append(&mut breaks);
    out.append(&mut open);
    let mut k: usize = end;
    while k < n
        invariant
            end <= k <= n == children@.len(),
            out@ == children@.subrange(0, start as int) + migration_group(region, terminators, -1)
                + migration_group(region, terminators, 0) + migration_group(
                region,
                terminators,
                1,
            ) + children@.subrange(end as int, k as int),
        decreases n - k,
    {
        out.push(children[k]);
        k += 1;
    }
    proof {
        assert(children@.subrange(0, start as int) =~= children@.subrange(0, from as int)
            + t.subrange(0, start - from));
        assert(children@.subrange(end as int, n as int) =~= t.subrange(end - from, t.len() as int));
        assert(out@ =~= children@.subrange(0, from as int) + spec_migrated(t, mid as int).0);
    }
    proof {
        lemma_migrated_len(t, mid as int);
    }
    *children = out;
    r
}


/// A page-level item.
#[derive(Clone, Copy, PartialEq, Eq, Hash, Debug)]
pub enum PageItem<S> {
    /// A run of children, `children[start..end]`, to lay out as pages, with
    /// the styles that its pages start with and the span that keys its
    /// locator.
    Run { start: usize, end: usize, initial: S, key: Option<Span> },
    /// Tags between pages, `children[start..end]`. They go to the start of
    /// the next page, or to the end of the last page if none follows.
    Tags { start: usize, end: usize },
    /// An instruction to add a page where the page count lacks the parity,
    /// with the styles of the pagebreak that asks for it and the span that
    /// keys its locator.
    Parity { parity: Parity, styles: S, key: Option<Span> },
}

/// The state of page collection: the children as they are rearranged so far,
/// the position of the next child to read, the styles that the next page
/// starts with, whether an empty page is staged, and the items so far.
pub struct PageCollection<S> {
    pub children: Seq<PagePair<S>>,
    pub pos: int,
    pub initial: S,
    pub staged: bool,
    pub items: Seq<PageItem<S>>,
}

/// The position of the first pagebreak at or after `i`, or the end.
pub open spec fn next_break<S>(t: Seq<PagePair<S>>, i: int) -> int
    decreases t.len() - i,
{
    if i >= t.len() {
        i
    } else if is_pagebreak(t[i]) {
        i
    } else {
        next_break(t, i + 1)
    }
}

/// Whether `t[lo..hi]` holds tags only.
pub open spec fn only_tags<S>(t: Seq<PagePair<S>>, lo: int, hi: int) -> bool {
    forall|j: int| lo <= j < hi ==> is_tag(#[trigger] t[j])
}

/// Whether a child is a pagebreak that closes the scope of a page set rule.
pub open spec fn is_boundary_break<S>(p: PagePair<S>) -> bool {
    p.child matches PageChild::Pagebreak { boundary, .. } && boundary
}

/// Whether everything from `lo` on is a boundary pagebreak.
pub open spec fn only_boundary_breaks<S>(t: Seq<PagePair<S>>, lo: int) -> bool {
    forall|j: int| lo <= j < t.len() ==> is_boundary_break(#[trigger] t[j])
}

/// The state before the first child is read.
pub open spec fn page_collection_start<S>(children: Seq<PagePair<S>>, initial: S) -> PageCollection<
    S,
> {
    PageCollection { children, pos: 0, initial, staged: true, items: Seq::empty() }
}

/// One step of page collection, at a position before the end.
///
/// A pagebreak adds an empty page where it is strong and an empty page was
/// staged, then a parity instruction where it asks for one; its styles start
/// the next page unless it is a boundary, and a strong one stages an empty
/// page. Anything else starts a run that goes up to the next pagebreak; the
/// open start tags at its end move past the pagebreaks, and what is left of
/// the run becomes a `Tags` item where it is tags only (unless an empty page
/// is staged and nothing but boundary pagebreaks follows), else a page run
/// that unstages the empty page. When nothing is left, the step only
/// rearranges the children.
pub open spec fn page_step<S>(st: PageCollection<S>) -> PageCollection<S> {
    let c = st.children[st.pos];
    match c.child {
        PageChild::Pagebreak { weak, to, boundary } => {
            let strong = !weak;
            let items = if strong && st.staged {
                st.items.push(
                    PageItem::Run {
                        start: st.pos as usize,
                        end: st.pos as usize,
                        initial: st.initial,
                        key: Some(c.span),
                    },
                )
            } else {
                st.items
            };
            let items = match to {
                Some(parity) => items.push(
                    PageItem::Parity { parity, styles: c.styles, key: Some(c.span) },
                ),
                None => items,
            };
            PageCollection {
                children: st.children,
                pos: st.pos + 1,
                initial: if boundary {
                    st.initial
                } else {
                    c.styles
                },
                staged: st.staged || strong,
                items,
            }
        },
        _ => {
            let tail = st.children.subrange(st.pos, st.children.len() as int);
            let mid = next_break(st.children, st.pos) - st.pos;
            let moved = spec_migrated(tail, mid);
            let children = st.children.subrange(0, st.pos) + moved.0;
            let end = st.pos + moved.1;
            if moved.1 == 0 {
                PageCollection {
                    children,
                    pos: st.pos,
                    initial: st.initial,
                    staged: st.staged,
                    items: st.items,
                }
            } else if only_tags(children, st.pos, end) && !(st.staged && only_boundary_breaks(
                children,
                end,
            )) {
                PageCollection {
                    children,
                    pos: end,
                    initial: st.initial,
                    staged: st.staged,
                    items: st.items.push(
                        PageItem::Tags { start: st.pos as usize, end: end as usize },
                    ),
                }
            } else {
                PageCollection {
                    children,
                    pos: end,
                    initial: st.initial,
                    staged: false,
                    items: st.items.push(
                        PageItem::Run {
                            start: st.pos as usize,
                            end: end as usize,
                            initial: st.initial,
                            key: Some(c.span),
                        },
                    ),
                }
            }
        },
    }
}

/// Page collection from `st` on, with at most `fuel` steps; `None` where it
/// has not reached the end by then.
pub open spec fn page_run<S>(st: PageCollection<S>, fuel: nat) -> Option<PageCollection<S>>
    decreases fuel,
{
    if st.pos < 0 || st.pos >= st.children.len() {
        Some(st)
    } else if fuel == 0 {
        None
    } else {
        page_run(page_step(st), (fuel - 1) as nat)
    }
}

/// Whether page collection of `children` comes to an end.
pub open spec fn spec_pages_terminate<S>(children: Seq<PagePair<S>>, initial: S) -> bool {
    exists|fuel: nat| (#[trigger] page_run(page_collection_start(children, initial), fuel)) is Some
}

/// The steps that page collection of `children` takes.
pub open spec fn page_fuel<S>(children: Seq<PagePair<S>>, initial: S) -> nat {
    choose|fuel: nat| (#[trigger] page_run(page_collection_start(children, initial), fuel)) is Some
}

/// The state in which page collection of `children` ends, with a staged empty
/// page flushed as an empty run at the end.
pub open spec fn spec_collected<S>(children: Seq<PagePair<S>>, initial: S) -> PageCollection<S> {
    let fin = page_run(page_collection_start(children, initial), page_fuel(children, initial))->0;
    PageCollection {
        children: fin.children,
        pos: fin.pos,
        initial: fin.initial,
        staged: fin.staged,
        items: if fin.staged {
            fin.items.push(
                PageItem::Run {
                    start: fin.children.len() as usize,
                    end: fin.children.len() as usize,
                    initial: fin.initial,
                    key: None,
                },
            )
        } else {
            fin.items
        },
    }
}

/// Whether a child is a pagebreak that closes the scope of a page set rule.
fn child_is_boundary_break(c: &PageChild) -> (r: bool)
    ensures
        r == (*c matches PageChild::Pagebreak { boundary, .. } && boundary),
{
    match c {
        PageChild::Pagebreak { boundary, .. } => *boundary,
        _ => false,
    }
}

/// Slices the flow-level children into page-level items: pagebreaks become
/// empty runs and parity instructions, consecutive other children become page
/// runs or, where they are tags only, tag items; start tags that are still
/// open at a pagebreak move to after it. A staged empty page is flushed as an
/// empty run at the end.
pub fn collect_page_items<S: Copy>(children: &mut Vec<PagePair<S>>, initial: S) -> (items: Vec<
    PageItem<S>,
>)
    requires
        spec_pages_terminate(old(children)@, initial),
    ensures
        final(children)@ == spec_collected(old(children)@, initial).children,
        items@ == spec_collected(old(children)@, initial).items,
{
    let ghost start = page_collection_start(children@, initial);
    let ghost fuel0 = page_fuel(children@, initial);
    let ghost fin = page_run(start, fuel0)->0;
    let ghost mut fuel: nat = fuel0;
    let mut items: Vec<PageItem<S>> = Vec::new();
    let mut initial = initial;
    let mut staged = true;
    let mut pos: usize = 0;
    while pos < children.len()
        invariant
            pos <= children@.len(),
            page_run(
                PageCollection { children: children@, pos: pos as int, initial, staged, items: items@ },
                fuel,
            ) == Some(fin),
        decreases fuel,
    {
        let ghost st = PageCollection {
            children: children@,
            pos: pos as int,
            initial,
            staged,
            items: items@,
        };
        assert(fuel > 0);
        assert(page_run(page_step(st), (fuel - 1) as nat) == Some(fin));
        let c = children[pos];
        match c.child {
            PageChild::Pagebreak { weak, to, boundary } => {
                let strong = !weak;
                if strong && staged {
                    items.push(PageItem::Run { start: pos, end: pos, initial, key: Some(c.span) });
                }
                match to {
                    Some(parity) => {
                        items.push(PageItem::Parity { parity, styles: c.styles, key: Some(c.span) });
                    },
                    None => {},
                }
                if !boundary {
                    initial = c.styles;
                }
                staged = staged || strong;
                pos += 1;
            },
            _ => {
                let n: usize = children.len();
                let mut e: usize = pos;
                while e < n && !child_is_pagebreak(&children[e].child)
                    invariant
                        pos <= e <= n == children@.len(),
                        next_break(children@, pos as int) == next_break(children@, e as int),
                    decreases n - e,
                {
                    e += 1;
                }
                let r: usize = migrate_unterminated_tags(children, pos, e - pos);
                if r == 0 {
                    proof {
                        fuel = (fuel - 1) as nat;
                    }
                    continue;
                }
                let end: usize = pos + r;
                let mut j: usize = pos;
                let mut tags_only = true;
                while j < end
                    invariant
                        pos <= j <= end <= children@.len(),
                        tags_only == only_tags(children@, pos as int, j as int),
                    decreases end - j,
                {
                    tags_only = tags_only && child_is_tag(&children[j].child);
                    j += 1;
                }
                let mut k: usize = end;
                let mut boundaries_only = true;
                while k < children.len()
                    invariant
                        end <= k <= children@.len(),
                        boundaries_only == (forall|i: int|
                            end <= i < k ==> is_boundary_break(#[trigger] children@[i])),
                    decreases children@.len() - k,
                {
                    boundaries_only = boundaries_only && child_is_boundary_break(
                        &children[k].child,
                    );
                    k += 1;
                }
                if tags_only && !(staged && boundaries_only) {
                    items.push(PageItem::Tags { start: pos, end });
                } else {
                    items.push(PageItem::Run { start: pos, end, initial, key: Some(c.span) });
                    staged = false;
                }
                pos = end;
            },
        }
        proof {
            fuel = (fuel - 1) as nat;
        }
    }
    if staged {
        let n: usize = children.len();
        items.push(PageItem::Run { start: n, end: n, initial, key: None });
    }
    items
}


/// Whether a child is the start tag of an element.
pub open spec fn is_start_tag<S>(p: PagePair<S>) -> bool {
    p.child matches PageChild::Tag { kind: TagKind::Start, .. }
}

/// The end tag of the element at `loc`.
pub open spec fn end_tag(loc: Location) -> PageChild {
    PageChild::Tag { kind: TagKind::End, location: loc }
}

/// Whether every start tag in `t` is followed by the end tag of its element.
pub open spec fn tags_balanced<S>(t: Seq<PagePair<S>>) -> bool {
    forall|i: int|
        0 <= i < t.len() && is_start_tag(#[trigger] t[i]) ==> exists|j: int|
            i < j < t.len() && (#[trigger] t[j]).child == end_tag(t[i].child->location)
}

/// `c` with the tags `c[s..m]` and the pagebreaks `c[m..e]` sorted into
/// their migration groups.
spec fn sorted_region<S>(c: Seq<PagePair<S>>, s: int, m: int, e: int) -> Seq<PagePair<S>> {
    let region = c.subrange(s, e);
    let terminators = c.subrange(s, m);
    c.subrange(0, s) + migration_group(region, terminators, -1) + migration_group(
        region,
        terminators,
        0,
    ) + migration_group(region, terminators, 1) + c.subrange(e, c.len() as int)
}

proof fn lemma_group_take_step<S>(s: Seq<PagePair<S>>, terminators: Seq<PagePair<S>>, g: int, i: int)
    requires
        0 <= i < s.len(),
    ensures
        migration_group(s.take(i + 1), terminators, g) == if migration_key(s[i], terminators)
            == g {
            migration_group(s.take(i), terminators, g).push(s[i])
        } else {
            migration_group(s.take(i), terminators, g)
        },
{
    assert(s.take(i + 1).drop_last() =~= s.take(i));
}

/// The group of a prefix of `s` is a prefix of the group of `s`.
proof fn lemma_group_prefix<S>(s: Seq<PagePair<S>>, terminators: Seq<PagePair<S>>, g: int, k: int)
    requires
        0 <= k <= s.len(),
    ensures
        migration_group(s.take(k), terminators, g).len() <= migration_group(s, terminators, g).len(),
        forall|q: int|
            0 <= q < migration_group(s.take(k), terminators, g).len() ==> #[trigger] migration_group(
                s.take(k),
                terminators,
                g,
            )[q] == migration_group(s, terminators, g)[q],
    decreases s.len() - k,
{
    if k == s.len() {
        assert(s.take(k) =~= s);
    } else {
        lemma_group_prefix(s, terminators, g, k + 1);
        lemma_group_take_step(s, terminators, g, k);
        let shorter = migration_group(s.take(k), terminators, g);
        let longer = migration_group(s.take(k + 1), terminators, g);
        assert forall|q: int| 0 <= q < shorter.len() implies #[trigger] shorter[q] == migration_group(
            s,
            terminators,
            g,
        )[q] by {
            assert(shorter[q] == longer[q]);
        }
    }
}

/// A child of `s` in group `g` stands in the group at the number of children
/// of that group before it.
proof fn lemma_group_at_rank<S>(s: Seq<PagePair<S>>, terminators: Seq<PagePair<S>>, g: int, i: int)
    requires
        0 <= i < s.len(),
        migration_key(s[i], terminators) == g,
    ensures
        migration_group(s.take(i), terminators, g).len() < migration_group(s, terminators, g).len(),
        migration_group(s, terminators, g)[migration_group(s.take(i), terminators, g).len() as int]
            == s[i],
{
    lemma_group_take_step(s, terminators, g, i);
    lemma_group_prefix(s, terminators, g, i + 1);
    let q = migration_group(s.take(i), terminators, g).len() as int;
    assert(migration_group(s.take(i + 1), terminators, g)[q] == s[i]);
}

/// Each child of a group comes from `s`, at the index whose rank it has.
proof fn lemma_group_origin<S>(s: Seq<PagePair<S>>, terminators: Seq<PagePair<S>>, g: int, q: int)
    requires
        0 <= q < migration_group(s, terminators, g).len(),
    ensures
        exists|i: int|
            0 <= i < s.len() && migration_key(s[i], terminators) == g && migration_group(
                s.take(i),
                terminators,
                g,
            ).len() == q && #[trigger] s[i] == migration_group(s, terminators, g)[q],
    decreases s.len(),
{
    let rest = s.drop_last();
    if q < migration_group(rest, terminators, g).len() {
        lemma_group_origin(rest, terminators, g, q);
        let i = choose|i: int|
            0 <= i < rest.len() && migration_key(rest[i], terminators) == g && migration_group(
                rest.take(i),
                terminators,
                g,
            ).len() == q && #[trigger] rest[i] == migration_group(rest, terminators, g)[q];
        assert(rest.take(i) =~= s.take(i));
        assert(s[i] == rest[i]);
    } else {
        let i = s.len() - 1;
        assert(s.take(i) =~= rest);
        assert(s[i] == s.last());
    }
}

/// Of two children in one group, the earlier has the lower rank.
proof fn lemma_group_rank_order<S>(
    s: Seq<PagePair<S>>,
    terminators: Seq<PagePair<S>>,
    g: int,
    i1: int,
    i2: int,
)
    requires
        0 <= i1 < i2 <= s.len(),
        migration_key(s[i1], terminators) == g,
    ensures
        migration_group(s.take(i1), terminators, g).len() < migration_group(
            s.take(i2),
            terminators,
            g,
        ).len(),
{
    let s2 = s.take(i2);
    lemma_group_prefix(s2, terminators, g, i1 + 1);
    assert(s2.take(i1 + 1) =~= s.take(i1 + 1));
    lemma_group_take_step(s, terminators, g, i1);
}

/// The key of a tag is -1 or 1.
proof fn lemma_tag_key<S>(p: PagePair<S>, terminators: Seq<PagePair<S>>)
    ensures
        is_tag(p) <==> migration_key(p, terminators) != 0,
{
}

/// Sorting a run of tags and the pagebreaks after it into their migration
/// groups keeps every start tag before the end tag of its element.
#[verifier::spinoff_prover]
#[verifier::rlimit(40)]
proof fn lemma_sorted_region_balanced<S>(c: Seq<PagePair<S>>, s: int, m: int, e: int)
    requires
        0 <= s <= m <= e <= c.len(),
        forall|j: int| s <= j < m ==> is_tag(#[trigger] c[j]),
        forall|j: int| m <= j < e ==> is_pagebreak(#[trigger] c[j]),
        tags_balanced(c),
    ensures
        sorted_region(c, s, m, e).len() == c.len(),
        tags_balanced(sorted_region(c, s, m, e)),
{
    let region = c.subrange(s, e);
    let terminators = c.subrange(s, m);
    let g1 = migration_group(region, terminators, -1);
    let g0 = migration_group(region, terminators, 0);
    let g2 = migration_group(region, terminators, 1);
    let u = sorted_region(c, s, m, e);
    let a = g1.len() as int;
    let b = g0.len() as int;
    lemma_groups_cover(region, terminators);
    assert(u.len() == c.len());
    assert forall|p: int| 0 <= p < u.len() && is_start_tag(#[trigger] u[p]) implies exists|j: int|
        p < j < u.len() && (#[trigger] u[j]).child == end_tag(u[p].child->location) by {
        let loc = u[p].child->location;
        if p < s || p >= e {
            assert(u[p] == c[p]);
            let j = choose|j: int| p < j < c.len() && (#[trigger] c[j]).child == end_tag(loc);
            if j < s || j >= e {
                assert(u[j] == c[j]);
            } else {
                // The end tag lies among the sorted tags, in the first group.
                assert(is_tag(c[j]));
                assert(j < m);
                assert(terminators[j - s] == c[j]);
                assert(ends_among(terminators, loc));
                assert(region[j - s] == c[j]);
                lemma_group_at_rank(region, terminators, -1, j - s);
                let q = migration_group(region.take(j - s), terminators, -1).len() as int;
                assert(u[s + q] == g1[q]);
            }
        } else {
            let q = p - s;
            assert(u[p] == (g1 + g0 + g2)[q]);
            if q < a {
                lemma_group_origin(region, terminators, -1, q);
                let i = choose|i: int|
                    0 <= i < region.len() && migration_key(region[i], terminators) == -1
                        && migration_group(region.take(i), terminators, -1).len() == q
                        && #[trigger] region[i] == g1[q];
                assert(c[s + i] == region[i]);
                let j = choose|j: int| s + i < j < c.len() && (#[trigger] c[j]).child == end_tag(
                    loc,
                );
                if j >= e {
                    assert(u[j] == c[j]);
                } else {
                    assert(is_tag(c[j]));
                    assert(terminators[j - s] == c[j]);
                    assert(region[j - s] == c[j]);
                    lemma_group_rank_order(region, terminators, -1, i, j - s);
                    lemma_group_prefix(region, terminators, -1, j - s);
                    lemma_group_at_rank(region, terminators, -1, j - s);
                    let q2 = migration_group(region.take(j - s), terminators, -1).len() as int;
                    assert(u[s + q2] == g1[q2]);
                }
            } else if q < a + b {
                lemma_group_origin(region, terminators, 0, q - a);
                let i = choose|i: int|
                    0 <= i < region.len() && migration_key(region[i], terminators) == 0
                        && migration_group(region.take(i), terminators, 0).len() == q - a
                        && #[trigger] region[i] == g0[q - a];
                lemma_tag_key(region[i], terminators);
            } else {
                lemma_group_origin(region, terminators, 1, q - a - b);
                let i = choose|i: int|
                    0 <= i < region.len() && migration_key(region[i], terminators) == 1
                        && migration_group(region.take(i), terminators, 1).len() == q - a - b
                        && #[trigger] region[i] == g2[q - a - b];
                assert(c[s + i] == region[i]);
                let j = choose|j: int| s + i < j < c.len() && (#[trigger] c[j]).child == end_tag(
                    loc,
                );
                if j < m {
                    assert(terminators[j - s] == c[j]);
                    assert(ends_among(terminators, loc));
                } else if j < e {
                    assert(is_pagebreak(c[j]));
                } else {
                    assert(u[j] == c[j]);
                }
            }
        }
    }
}

/// Migration at `mid` in the children from `pos` on, seen on all children.
proof fn lemma_migration_at<S>(c: Seq<PagePair<S>>, pos: int, mid: int)
    requires
        0 <= pos <= c.len(),
        0 <= mid <= c.len() - pos,
    ensures
        ({
            let t = c.subrange(pos, c.len() as int);
            let s = pos + tag_run_start(t, mid);
            let e = pos + break_run_end(t, mid);
            &&& pos <= s <= pos + mid <= e <= c.len()
            &&& forall|j: int| s <= j < pos + mid ==> is_tag(#[trigger] c[j])
            &&& forall|j: int| pos + mid <= j < e ==> is_pagebreak(#[trigger] c[j])
            &&& c.subrange(0, pos) + spec_migrated(t, mid).0 == sorted_region(c, s, pos + mid, e)
            &&& spec_migrated(t, mid).1 == s - pos + migration_group(
                c.subrange(s, e),
                c.subrange(s, pos + mid),
                -1,
            ).len()
        }),
{
    let t = c.subrange(pos, c.len() as int);
    lemma_tag_run_start(t, mid);
    lemma_break_run_end(t, mid);
    let start = tag_run_start(t, mid);
    let end = break_run_end(t, mid);
    let s = pos + start;
    let e = pos + end;
    assert forall|j: int| s <= j < pos + mid implies is_tag(#[trigger] c[j]) by {
        assert(t[j - pos] == c[j]);
    }
    assert forall|j: int| pos + mid <= j < e implies is_pagebreak(#[trigger] c[j]) by {
        assert(t[j - pos] == c[j]);
    }
    assert(t.subrange(start, end) =~= c.subrange(s, e));
    assert(t.subrange(start, mid) =~= c.subrange(s, pos + mid));
    assert(c.subrange(0, pos) + t.subrange(0, start) =~= c.subrange(0, s));
    assert(t.subrange(end, t.len() as int) =~= c.subrange(e, c.len() as int));
    assert(c.subrange(0, pos) + spec_migrated(t, mid).0 =~= sorted_region(c, s, pos + mid, e));
}

/// Migration keeps every start tag before the end tag of its element.
pub proof fn lemma_migration_keeps_tags_balanced<S>(t: Seq<PagePair<S>>, mid: int)
    requires
        0 <= mid <= t.len(),
        tags_balanced(t),
    ensures
        tags_balanced(spec_migrated(t, mid).0),
{
    lemma_migration_at(t, 0, mid);
    assert(t.subrange(0, t.len() as int) =~= t);
    assert(t.subrange(0, 0) + spec_migrated(t, mid).0 =~= spec_migrated(t, mid).0);
    let s = tag_run_start(t, mid);
    let e = break_run_end(t, mid);
    lemma_sorted_region_balanced(t, s, mid, e);
}


proof fn lemma_next_break<S>(c: Seq<PagePair<S>>, i: int)
    requires
        0 <= i <= c.len(),
    ensures
        i <= next_break(c, i) <= c.len(),
        forall|j: int| i <= j < next_break(c, i) ==> !is_pagebreak(#[trigger] c[j]),
        next_break(c, i) < c.len() ==> is_pagebreak(c[next_break(c, i)]),
    decreases c.len() - i,
{
    if i < c.len() && !is_pagebreak(c[i]) {
        lemma_next_break(c, i + 1);
    }
}

/// Twice the number of children left, plus one where the next child starts
/// a run.
spec fn page_measure<S>(st: PageCollection<S>) -> nat {
    let left = (st.children.len() - st.pos) as nat;
    if st.pos < st.children.len() && !is_pagebreak(st.children[st.pos]) {
        2 * left + 1
    } else {
        2 * left
    }
}

/// With balanced tags, a step keeps them balanced and makes progress: either
/// it reads children, or it brings a pagebreak to the front.
proof fn lemma_page_step_progress<S>(st: PageCollection<S>)
    requires
        0 <= st.pos < st.children.len(),
        tags_balanced(st.children),
    ensures
        page_step(st).children.len() == st.children.len(),
        0 <= page_step(st).pos <= page_step(st).children.len(),
        tags_balanced(page_step(st).children),
        page_measure(page_step(st)) < page_measure(st),
{
    let c = st.children;
    let pos = st.pos;
    if !is_pagebreak(c[pos]) {
        let t = c.subrange(pos, c.len() as int);
        let nb = next_break(c, pos);
        let mid = nb - pos;
        lemma_next_break(c, pos);
        lemma_migration_at(c, pos, mid);
        lemma_migrated_len(t, mid);
        let s = pos + tag_run_start(t, mid);
        let e = pos + break_run_end(t, mid);
        lemma_sorted_region_balanced(c, s, nb, e);
        let next = page_step(st);
        let r = spec_migrated(t, mid).1;
        if r == 0 {
            let region = c.subrange(s, e);
            let terminators = c.subrange(s, nb);
            let g1 = migration_group(region, terminators, -1);
            let g0 = migration_group(region, terminators, 0);
            assert(s == pos);
            assert(g1.len() == 0);
            if nb == c.len() {
                // Only start tags would be left, and the last would lack its end tag.
                let last = c.len() - 1;
                assert(is_tag(c[last]));
                if !is_start_tag(c[last]) {
                    assert(c[last].child == end_tag(c[last].child->location));
                    assert(terminators[last - s] == c[last]);
                    assert(ends_among(terminators, c[last].child->location));
                    assert(region[last - s] == c[last]);
                    lemma_group_at_rank(region, terminators, -1, last - s);
                }
                assert(is_start_tag(c[last]));
            }
            assert(nb < c.len());
            assert(is_pagebreak(c[nb]));
            lemma_break_run_end(t, mid + 1);
            assert(e > nb);
            assert(region[nb - s] == c[nb]);
            lemma_tag_key(region[nb - s], terminators);
            lemma_group_at_rank(region, terminators, 0, nb - s);
            lemma_group_origin(region, terminators, 0, 0);
            let i = choose|i: int|
                0 <= i < region.len() && migration_key(region[i], terminators) == 0
                    && migration_group(region.take(i), terminators, 0).len() == 0
                    && #[trigger] region[i] == g0[0];
            lemma_tag_key(region[i], terminators);
            assert(region[i] == c[s + i]);
            assert(next.children[pos] == g0[0]);
            assert(is_pagebreak(next.children[pos]));
        }
    }
}

/// Page collection from a state with balanced tags comes to an end.
proof fn lemma_page_run_terminates<S>(st: PageCollection<S>)
    requires
        0 <= st.pos <= st.children.len(),
        tags_balanced(st.children),
    ensures
        exists|fuel: nat| (#[trigger] page_run(st, fuel)) is Some,
    decreases page_measure(st),
{
    if st.pos >= st.children.len() {
        assert(page_run(st, 0) is Some);
    } else {
        lemma_page_step_progress(st);
        let next = page_step(st);
        lemma_page_run_terminates(next);
        let fuel = choose|fuel: nat| (#[trigger] page_run(next, fuel)) is Some;
        assert(page_run(st, fuel + 1) is Some);
    }
}

/// Page collection comes to an end whenever every start tag is followed by
/// the end tag of its element.
pub proof fn lemma_balanced_collection_terminates<S>(children: Seq<PagePair<S>>, initial: S)
    requires
        tags_balanced(children),
    ensures
        spec_pages_terminate(children, initial),
{
    lemma_page_run_terminates(page_collection_start(children, initial));
}


proof fn lemma_groups_multiset<S>(s: Seq<PagePair<S>>, terminators: Seq<PagePair<S>>)
    ensures
        s.to_multiset() =~= migration_group(s, terminators, -1).to_multiset().add(
            migration_group(s, terminators, 0).to_multiset(),
        ).add(migration_group(s, terminators, 1).to_multiset()),
    decreases s.len(),
{
    broadcast use vstd::multiset::group_multiset_axioms, vstd::seq_lib::group_to_multiset_ensures;

    if s.len() == 0 {
        assert(s.to_multiset() =~= vstd::multiset::Multiset::empty());
    } else {
        let rest = s.drop_last();
        lemma_groups_multiset(rest, terminators);
        assert(rest.push(s.last()) =~= s);
    }
}

/// Migration only rearranges the children: it keeps each of them, as often
/// as it occurs, and keeps their number.
pub proof fn lemma_migration_rearranges<S>(t: Seq<PagePair<S>>, mid: int)
    requires
        0 <= mid <= t.len(),
    ensures
        spec_migrated(t, mid).0.len() == t.len(),
        spec_migrated(t, mid).0.to_multiset() == t.to_multiset(),
{
    broadcast use vstd::multiset::group_multiset_axioms;

    lemma_migration_at(t, 0, mid);
    lemma_migrated_len(t, mid);
    let s = tag_run_start(t, mid);
    let e = break_run_end(t, mid);
    assert(t.subrange(0, t.len() as int) =~= t);
    assert(t.subrange(0, 0) + spec_migrated(t, mid).0 =~= spec_migrated(t, mid).0);
    let region = t.subrange(s, e);
    let terminators = t.subrange(s, mid);
    let g1 = migration_group(region, terminators, -1);
    let g0 = migration_group(region, terminators, 0);
    let g2 = migration_group(region, terminators, 1);
    let before = t.subrange(0, s);
    let after = t.subrange(e, t.len() as int);
    lemma_groups_multiset(region, terminators);
    assert(t =~= before + region + after);
    vstd::seq_lib::lemma_multiset_commutative(before + region, after);
    vstd::seq_lib::lemma_multiset_commutative(before, region);
    vstd::seq_lib::lemma_multiset_commutative(before + g1 + g0 + g2, after);
    vstd::seq_lib::lemma_multiset_commutative(before + g1 + g0, g2);
    vstd::seq_lib::lemma_multiset_commutative(before + g1, g0);
    vstd::seq_lib::lemma_multiset_commutative(before, g1);
    assert(spec_migrated(t, mid).0.to_multiset() =~= t.to_multiset());
}

/// A step of page collection only rearranges the children.
proof fn lemma_page_step_rearranges<S>(st: PageCollection<S>)
    requires
        0 <= st.pos < st.children.len(),
    ensures
        page_step(st).children.to_multiset() == st.children.to_multiset(),
{
    broadcast use vstd::multiset::group_multiset_axioms;

    let c = st.children;
    let pos = st.pos;
    if !is_pagebreak(c[pos]) {
        let t = c.subrange(pos, c.len() as int);
        let mid = next_break(c, pos) - pos;
        lemma_next_break(c, pos);
        lemma_migration_rearranges(t, mid);
        let moved = spec_migrated(t, mid).0;
        assert(c =~= c.subrange(0, pos) + t);
        vstd::seq_lib::lemma_multiset_commutative(c.subrange(0, pos), t);
        vstd::seq_lib::lemma_multiset_commutative(c.subrange(0, pos), moved);
    }
}

proof fn lemma_page_run_rearranges<S>(st: PageCollection<S>, fuel: nat)
    requires
        page_run(st, fuel) is Some,
    ensures
        page_run(st, fuel)->0.children.to_multiset() == st.children.to_multiset(),
    decreases fuel,
{
    if 0 <= st.pos < st.children.len() {
        lemma_page_step_rearranges(st);
        lemma_page_run_rearranges(page_step(st), (fuel - 1) as nat);
    }
}

/// Page collection only rearranges the children: it keeps each of them, as
/// often as it occurs.
pub proof fn lemma_collection_rearranges<S>(children: Seq<PagePair<S>>, initial: S)
    requires
        spec_pages_terminate(children, initial),
    ensures
        spec_collected(children, initial).children.to_multiset() == children.to_multiset(),
{
    let start = page_collection_start(children, initial);
    lemma_page_run_rearranges(start, page_fuel(children, initial));
}


impl Parity {
    /// Whether a number of pages has this parity.
    pub open spec fn spec_matches(self, number: int) -> bool {
        match self {
            Parity::Even => number % 2 == 0,
            Parity::Odd => number % 2 == 1,
        }
    }

    /// Whether a number has this parity.
    pub fn matches(self, number: usize) -> (r: bool)
        ensures
            r == self.spec_matches(number as int),
    {
        match self {
            Parity::Even => number % 2 == 0,
            Parity::Odd => number % 2 == 1,
        }
    }
}

/// Where a page of the document comes from.
#[derive(Clone, Copy, PartialEq, Eq, Hash, Debug)]
pub enum PageSource {
    /// The page with index `page` of the run laid out for the item `item`.
    Run { item: usize, page: usize },
    /// A blank page that the parity instruction `item` adds.
    Blank { item: usize },
}

/// The number of pages and of runs that the first `i` items lead to, given
/// how many pages each run was laid out into.
pub open spec fn spec_pages_before<S>(items: Seq<PageItem<S>>, run_pages: Seq<usize>, i: int) -> (int, int)
    decreases i,
{
    if i <= 0 {
        (0, 0)
    } else {
        let (n, runs) = spec_pages_before(items, run_pages, i - 1);
        match items[i - 1] {
            PageItem::Run { .. } => (n + run_pages[runs] as int, runs + 1),
            PageItem::Parity { parity, .. } => if parity.spec_matches(n) {
                (n + 1, runs)
            } else {
                (n, runs)
            },
            PageItem::Tags { .. } => (n, runs),
        }
    }
}

/// The sources of the pages that the first `i` items lead to: each run's
/// pages in order, and a blank page for each parity instruction whose
/// parity the number of pages before it has.
pub open spec fn spec_page_sources<S>(items: Seq<PageItem<S>>, run_pages: Seq<usize>, i: int) -> Seq<
    PageSource,
>
    decreases i,
{
    if i <= 0 {
        Seq::empty()
    } else {
        let before = spec_page_sources(items, run_pages, i - 1);
        let (n, runs) = spec_pages_before(items, run_pages, i - 1);
        match items[i - 1] {
            PageItem::Run { .. } => before + Seq::new(
                run_pages[runs] as nat,
                |p: int| PageSource::Run { item: (i - 1) as usize, page: p as usize },
            ),
            PageItem::Parity { parity, .. } => if parity.spec_matches(n) {
                before.push(PageSource::Blank { item: (i - 1) as usize })
            } else {
                before
            },
            PageItem::Tags { .. } => before,
        }
    }
}

/// The number of runs among the items.
pub open spec fn spec_run_count<S>(items: Seq<PageItem<S>>) -> int {
    spec_pages_before(items, Seq::empty(), items.len() as int).1
}

proof fn lemma_run_count_independent<S>(items: Seq<PageItem<S>>, a: Seq<usize>, b: Seq<usize>, i: int)
    ensures
        spec_pages_before(items, a, i).1 == spec_pages_before(items, b, i).1,
        spec_pages_before(items, a, i).1 >= 0,
    decreases i,
{
    if i > 0 {
        lemma_run_count_independent(items, a, b, i - 1);
    }
}

/// Adds the sources of the `count` pages of the run of item `item`.
fn push_run_pages(sources: &mut Vec<PageSource>, item: usize, count: usize)
    ensures
        final(sources)@ == old(sources)@ + Seq::new(
            count as nat,
            |q: int| PageSource::Run { item, page: q as usize },
        ),
{
    let ghost before = sources@;
    let mut p: usize = 0;
    while p < count
        invariant
            p <= count,
            sources@ == before + Seq::new(p as nat, |q: int| PageSource::Run { item, page: q as usize }),
        decreases count - p,
    {
        sources.push(PageSource::Run { item, page: p });
        p += 1;
        proof {
            assert(sources@ =~= before + Seq::new(p as nat, |q: int| PageSource::Run { item, page: q as usize }));
        }
    }
}

/// Plans the pages of a document from its page-level items: each run
/// contributes the pages it was laid out into (`run_pages` holds how many
/// for each run, in order), and a parity instruction adds a blank page where
/// the number of pages so far has the parity it names. Tags go to the start
/// of the first page after them, or, where none follows, to the end of the
/// last page: the second result gives, for each tag item, the index of that
/// page or `None`.
pub fn plan_pages<S: Copy>(items: &Vec<PageItem<S>>, run_pages: &Vec<usize>) -> (r: (
    Vec<PageSource>,
    Vec<(usize, Option<usize>)>,
))
    requires
        run_pages@.len() == spec_run_count(items@),
        spec_pages_before(items@, run_pages@, items@.len() as int).0 <= usize::MAX,
    ensures
        r.0@ == spec_page_sources(items@, run_pages@, items@.len() as int),
        r.1@.len() == (spec_tag_items(items@, items@.len() as int)).len(),
        forall|j: int|
            0 <= j < r.1@.len() ==> {
                let i = spec_tag_items(items@, items@.len() as int)[j];
                let n = spec_pages_before(items@, run_pages@, i).0;
                &&& (#[trigger] r.1@[j]).0 == i
                &&& r.1@[j].1 == if n < r.0@.len() {
                    Some(n as usize)
                } else {
                    None::<usize>
                }
            },
{
    let ghost its = items@;
    let ghost rp = run_pages@;
    let mut sources: Vec<PageSource> = Vec::new();
    let mut tag_items: Vec<(usize, usize)> = Vec::new();
    let n_runs: usize = run_pages.len();
    let mut runs: usize = 0;
    let mut i: usize = 0;
    proof {
        lemma_run_count_independent(its, rp, Seq::empty(), its.len() as int);
    }
    while i < items.len()
        invariant
            its == items@,
            rp == run_pages@,
            n_runs == rp.len(),
            i <= its.len(),
            rp.len() == spec_pages_before(its, rp, its.len() as int).1,
            spec_pages_before(its, rp, its.len() as int).0 <= usize::MAX,
            sources@ == spec_page_sources(its, rp, i as int),
            sources@.len() == spec_pages_before(its, rp, i as int).0,
            runs == spec_pages_before(its, rp, i as int).1,
            tag_items@.len() == spec_tag_items(its, i as int).len(),
            forall|j: int|
                0 <= j < tag_items@.len() ==> {
                    let t = spec_tag_items(its, i as int)[j];
                    &&& (#[trigger] tag_items@[j]).0 == t
                    &&& tag_items@[j].1 == spec_pages_before(its, rp, t).0
                },
        decreases its.len() - i,
    {
        proof {
            lemma_pages_before_grows(its, rp, i + 1, its.len() as int);
            lemma_runs_before_grow(its, rp, i + 1, its.len() as int);
            lemma_runs_before_grow(its, rp, i as int, its.len() as int);
        }
        let ghost before = sources@;
        let ghost tags_before = tag_items@;
        match items[i] {
            PageItem::Run { .. } => {
                assert(its[i as int] is Run);
                assert(runs < rp.len());
                let count = run_pages[runs];
                push_run_pages(&mut sources, i, count);
                runs += 1;
            },
            PageItem::Parity { parity, .. } => {
                if parity.matches(sources.len()) {
                    sources.push(PageSource::Blank { item: i });
                }
            },
            PageItem::Tags { .. } => {
                tag_items.push((i, sources.len()));
                proof {
                    assert(spec_tag_items(its, i + 1) == spec_tag_items(its, i as int).push(i as int));
                    assert forall|j: int| 0 <= j < tag_items@.len() implies {
                        let t = spec_tag_items(its, i + 1)[j];
                        &&& (#[trigger] tag_items@[j]).0 == t
                        &&& tag_items@[j].1 == spec_pages_before(its, rp, t).0
                    } by {
                        if j < tags_before.len() {
                            assert(tag_items@[j] == tags_before[j]);
                        }
                    }
                }
            },
        }
        i += 1;
    }
    let total = sources.len();
    let mut placed: Vec<(usize, Option<usize>)> = Vec::new();
    let mut j: usize = 0;
    while j < tag_items.len()
        invariant
            j <= tag_items@.len(),
            total == sources@.len(),
            placed@.len() == j,
            forall|k: int|
                0 <= k < j ==> (#[trigger] placed@[k]).0 == tag_items@[k].0 && placed@[k].1 == if tag_items@[k].1 < total {
                    Some(tag_items@[k].1)
                } else {
                    None::<usize>
                },
        decreases tag_items@.len() - j,
    {
        let (item, page) = tag_items[j];
        placed.push((item, if page < total { Some(page) } else { None }));
        j += 1;
    }
    (sources, placed)
}

/// The indices of the tag items among the first `i` items.
pub open spec fn spec_tag_items<S>(items: Seq<PageItem<S>>, i: int) -> Seq<int>
    decreases i,
{
    if i <= 0 {
        Seq::empty()
    } else {
        let before = spec_tag_items(items, i - 1);
        if items[i - 1] is Tags {
            before.push(i - 1)
        } else {
            before
        }
    }
}

proof fn lemma_pages_before_grows<S>(items: Seq<PageItem<S>>, rp: Seq<usize>, i: int, j: int)
    requires
        0 <= i <= j,
    ensures
        spec_pages_before(items, rp, i).0 <= spec_pages_before(items, rp, j).0,
    decreases j - i,
{
    if i < j {
        lemma_pages_before_grows(items, rp, i, j - 1);
    }
}

proof fn lemma_runs_before_grow<S>(items: Seq<PageItem<S>>, rp: Seq<usize>, i: int, j: int)
    requires
        0 <= i <= j,
    ensures
        spec_pages_before(items, rp, i).1 <= spec_pages_before(items, rp, j).1,
        i < j && items[i] is Run ==> spec_pages_before(items, rp, i).1 < spec_pages_before(items, rp, j).1,
    decreases j - i,
{
    if i < j {
        lemma_runs_before_grow(items, rp, i, j - 1);
        if i == j - 1 {
        }
    }
}

} // verus!
