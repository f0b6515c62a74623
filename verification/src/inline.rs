//! Inline layout: the prepared items of a paragraph and their text offsets,
//! the lines built from them, the break opportunities of links, and the
//! final stacking of line frames with orphan and widow prevention.

use vstd::prelude::*;
use vstd::utf8::{encode_scalar, encode_utf8};

use crate::align::FixedAlignment;
use crate::container::Spacing;
use crate::content::{Content, Span, StyleChain};
use crate::frame::{spec_push_frame, spec_should_inline, spec_translatable, Frame, FrameView};
use crate::geom::{in_range, Abs, Axes, Fr, Point, Size};
use core::ops::Range;

verus! {

/// A line break opportunity.
#[derive(Clone, Copy, PartialEq, Eq, Structural, Hash, Debug)]
pub enum Breakpoint {
    /// Just a normal opportunity (e.g. after a space).
    Normal,
    /// A mandatory breakpoint (after '\n' or at the end of the text).
    Mandatory,
    /// An opportunity for hyphenating.
    Hyphen,
}

/// A dash at the end of a line.
#[derive(Clone, Copy, PartialEq, Eq, Structural, Hash, Debug)]
pub enum Dash {
    /// A hyphen added to break a word.
    SoftHyphen,
    /// Regular hyphen, present in a compound word, e.g. beija-flor.
    HardHyphen,
    /// An em dash.
    Long,
    /// An en dash.
    Short,
}

/// Whether a character has the Unicode `Alphabetic` property.
pub uninterp spec fn is_alphabetic(c: char) -> bool;

/// Whether a character has one of the Unicode general categories for
/// numbers.
pub uninterp spec fn is_numeric(c: char) -> bool;

/// Calls `char::is_alphabetic`, which tells whether the character has the
/// Unicode `Alphabetic` property.
#[verifier::external_body]
fn char_is_alphabetic(c: char) -> (r: bool)
    ensures
        r == is_alphabetic(c),
{
    c.is_alphabetic()
}

/// Calls `char::is_numeric`, which tells whether the character has one of
/// the Unicode general categories for numbers.
#[verifier::external_body]
fn char_is_numeric(c: char) -> (r: bool)
    ensures
        r == is_numeric(c),
{
    c.is_numeric()
}

/// The class of a character in a link, for finding break opportunities.
#[derive(Clone, Copy, PartialEq, Eq, Structural, Hash, Debug)]
pub enum LinkClass {
    /// A letter.
    Alphabetic,
    /// A digit.
    Digit,
    /// An opening delimiter: `(` or `[`.
    Open,
    /// Anything else.
    Other,
}

/// The class of a character in a link.
pub open spec fn spec_link_class(c: char) -> LinkClass {
    if is_alphabetic(c) {
        LinkClass::Alphabetic
    } else if is_numeric(c) {
        LinkClass::Digit
    } else if c == '(' || c == '[' {
        LinkClass::Open
    } else {
        LinkClass::Other
    }
}

/// The class of a character in a link.
fn link_class(c: char) -> (r: LinkClass)
    ensures
        r == spec_link_class(c),
{
    if char_is_alphabetic(c) {
        LinkClass::Alphabetic
    } else if char_is_numeric(c) {
        LinkClass::Digit
    } else if c == '(' || c == '[' {
        LinkClass::Open
    } else {
        LinkClass::Other
    }
}

/// The number of bytes a character takes in UTF-8.
fn len_utf8(c: char) -> (r: usize)
    ensures
        r == encode_scalar(c as u32).len(),
        1 <= r <= 4,
{
    let v = c as u32;
    if v < 0x80 {
        1
    } else if v < 0x800 {
        2
    } else if v < 0x10000 {
        3
    } else {
        4
    }
}

/// The byte offset of the character with index `i` in a text.
pub open spec fn link_pos(chars: Seq<char>, i: int) -> int {
    encode_utf8(chars.take(i)).len() as int
}

/// Whether there is a break opportunity before a character of class `class`
/// at index `i`, following a character of class `prev`: from one other
/// character to another, from letters to digits and back, and never right
/// after an opening delimiter or before the first character.
pub open spec fn link_breaks_before(prev: LinkClass, class: LinkClass, i: int) -> bool {
    &&& i > 0
    &&& prev != LinkClass::Open
    &&& if class == LinkClass::Other {
        prev == LinkClass::Other
    } else {
        class != prev
    }
}

/// The state of the scan for break opportunities in a link.
pub struct LinkScan {
    /// The byte offset of the last break opportunity, or zero.
    pub offset: int,
    /// The index of the character at that offset.
    pub start: int,
    /// The class of the last character scanned.
    pub prev: LinkClass,
    /// The break opportunities found, as byte offsets.
    pub breaks: Seq<int>,
}

/// The scan state after the first `n` characters of a link. At each break
/// opportunity, the piece since the last one is emitted as one if it is
/// shorter than sixteen bytes; a longer piece (e.g. a hash in the URL) gets an
/// opportunity after each of its characters.
pub open spec fn link_scan(chars: Seq<char>, n: int) -> LinkScan
    decreases n,
{
    if n <= 0 {
        LinkScan { offset: 0, start: 0, prev: LinkClass::Other, breaks: seq![] }
    } else {
        let st = link_scan(chars, n - 1);
        let i = n - 1;
        let class = spec_link_class(chars[i]);
        let end = link_pos(chars, i);
        let next = if link_breaks_before(st.prev, class, i) {
            if end - st.offset < 16 {
                LinkScan { offset: end, start: i, breaks: st.breaks.push(end), ..st }
            } else {
                LinkScan {
                    offset: end,
                    start: i,
                    breaks: st.breaks + Seq::new(
                        (i - st.start) as nat,
                        |j: int| link_pos(chars, st.start + j + 1),
                    ),
                    ..st
                }
            }
        } else {
            st
        };
        LinkScan { prev: class, ..next }
    }
}

/// The encoding of two texts in a row is the two encodings in a row.
proof fn lemma_encode_concat(a: Seq<char>, b: Seq<char>)
    ensures
        encode_utf8(a + b) == encode_utf8(a) + encode_utf8(b),
    decreases a.len(),
{
    if a.len() == 0 {
        assert(a + b =~= b);
        assert(encode_utf8(a) =~= Seq::<u8>::empty());
        assert(encode_utf8(a) + encode_utf8(b) =~= encode_utf8(b));
    } else {
        assert((a + b).drop_first() =~= a.drop_first() + b);
        lemma_encode_concat(a.drop_first(), b);
        assert((a + b)[0] == a[0]);
        assert(encode_utf8(a + b) =~= encode_utf8(a) + encode_utf8(b));
    }
}

/// The byte offset of the next character is that of this character plus its
/// length.
proof fn lemma_link_pos_step(chars: Seq<char>, i: int)
    requires
        0 <= i < chars.len(),
    ensures
        link_pos(chars, i + 1) == link_pos(chars, i) + encode_scalar(chars[i] as u32).len(),
{
    assert(chars.take(i + 1) =~= chars.take(i) + seq![chars[i]]);
    lemma_encode_concat(chars.take(i), seq![chars[i]]);
    let one = seq![chars[i]];
    assert(one.drop_first() =~= Seq::<char>::empty());
    assert(encode_utf8(one.drop_first()) =~= Seq::<u8>::empty());
    assert(encode_utf8(one) =~= encode_scalar(one[0] as u32) + encode_utf8(one.drop_first()));
}

/// Byte offsets grow with the character index, up to the length of the text.
proof fn lemma_link_pos_bounds(chars: Seq<char>, i: int, k: int)
    requires
        0 <= i <= k <= chars.len(),
    ensures
        link_pos(chars, i) <= link_pos(chars, k) <= encode_utf8(chars).len(),
        i < k ==> link_pos(chars, i) < link_pos(chars, k),
    decreases k - i,
{
    if i < k {
        lemma_link_pos_bounds(chars, i + 1, k);
        lemma_link_pos_step(chars, i);
    } else {
        assert(chars == chars.take(chars.len() as int) + chars.skip(chars.len() as int));
        assert(chars =~= chars.take(k) + chars.skip(k));
        lemma_encode_concat(chars.take(k), chars.skip(k));
    }
}

/// The break opportunities of a link strictly increase and lie inside the
/// link: after its first byte and up to its end.
pub proof fn lemma_link_breaks_increase(chars: Seq<char>, n: int)
    requires
        0 <= n <= chars.len(),
    ensures
        forall|a: int, b: int|
            0 <= a < b < link_scan(chars, n).breaks.len() ==> link_scan(chars, n).breaks[a]
                < link_scan(chars, n).breaks[b],
        forall|m: int|
            0 <= m < link_scan(chars, n).breaks.len() ==> 0 < #[trigger] link_scan(
                chars,
                n,
            ).breaks[m] <= encode_utf8(chars).len(),
{
    lemma_link_scan_inv(chars, n);
    let st = link_scan(chars, n);
    lemma_link_pos_bounds(chars, st.start, chars.len() as int);
}

/// What holds of the scan state after `n` characters: the last break is at
/// the recorded offset, before the last character scanned, and the breaks
/// before it increase and are positive.
proof fn lemma_link_scan_inv(chars: Seq<char>, n: int)
    requires
        0 <= n <= chars.len(),
    ensures
        ({
            let st = link_scan(chars, n);
            &&& 0 <= st.start
            &&& (n == 0 ==> st.start == 0)
            &&& (n > 0 ==> st.start <= n - 1)
            &&& st.offset == link_pos(chars, st.start)
            &&& forall|m: int| 0 <= m < st.breaks.len() ==> #[trigger] st.breaks[m] <= st.offset
            &&& forall|m: int| 0 <= m < st.breaks.len() ==> 0 < #[trigger] st.breaks[m]
            &&& forall|a: int, b: int|
                0 <= a < b < st.breaks.len() ==> st.breaks[a] < st.breaks[b]
        }),
    decreases n,
{
    if n > 0 {
        lemma_link_scan_inv(chars, n - 1);
        let st = link_scan(chars, n - 1);
        let i = n - 1;
        let class = spec_link_class(chars[i]);
        let end = link_pos(chars, i);
        if link_breaks_before(st.prev, class, i) {
            lemma_link_pos_bounds(chars, st.start, i);
            lemma_link_pos_bounds(chars, 0, st.start);
            if end - st.offset >= 16 {
                let extra = Seq::new(
                    (i - st.start) as nat,
                    |j: int| link_pos(chars, st.start + j + 1),
                );
                assert forall|j: int| 0 <= j < extra.len() implies st.offset < #[trigger] extra[j]
                    <= end by {
                    lemma_link_pos_bounds(chars, st.start, st.start + j + 1);
                    lemma_link_pos_bounds(chars, st.start + j + 1, i);
                }
                assert forall|a: int, b: int| 0 <= a < b < extra.len() implies extra[a]
                    < extra[b] by {
                    lemma_link_pos_bounds(chars, st.start + a + 1, st.start + b + 1);
                }
            }
        }
    }
}

/// The break opportunities of a link, as byte offsets: between two other
/// characters, between letters and digits, never after an opening delimiter,
/// and after every character of pieces of sixteen bytes or more.
pub fn linebreak_link(link: &str) -> (r: Vec<usize>)
    ensures
        r@.len() == link_scan(link@, link@.len() as int).breaks.len(),
        forall|m: int|
            0 <= m < r@.len() ==> #[trigger] r@[m] as int == link_scan(
                link@,
                link@.len() as int,
            ).breaks[m],
{
    broadcast use vstd::string::axiom_spec_iter;

    let mut chars: Vec<char> = Vec::new();
    for c in iter: link.chars()
        invariant
            chars@ == iter.seq().take(iter.index() as int),
    {
        chars.push(c);
    }
    assert(chars@ =~= link@);
    let bytes = link.as_bytes();
    let total = bytes.len();
    assert(total == encode_utf8(link@).len());
    let n = chars.len();
    let mut out: Vec<usize> = Vec::new();
    let mut offset: usize = 0;
    let mut start: usize = 0;
    let mut prev = LinkClass::Other;
    let mut end: usize = 0;
    let mut i: usize = 0;
    while i < n
        invariant
            chars@ == link@,
            n == chars@.len(),
            total == encode_utf8(link@).len(),
            i <= n,
            end as int == link_pos(link@, i as int),
            ({
                let st = link_scan(link@, i as int);
                &&& offset as int == st.offset
                &&& start as int == st.start
                &&& prev == st.prev
                &&& out@.len() == st.breaks.len()
                &&& forall|m: int| 0 <= m < out@.len() ==> #[trigger] out@[m] as int == st.breaks[m]
                &&& 0 <= st.start <= i
                &&& st.offset == link_pos(link@, st.start)
            }),
        decreases n - i,
    {
        proof {
            lemma_link_pos_step(link@, i as int);
            lemma_link_pos_bounds(link@, i + 1, n as int);
        }
        let c = chars[i];
        let class = link_class(c);
        let ghost st = link_scan(link@, i as int);
        let ghost prev_out = out@;
        if i > 0 && prev != LinkClass::Open && (if class == LinkClass::Other {
            prev == LinkClass::Other
        } else {
            class != prev
        }) {
            proof {
                lemma_link_pos_bounds(link@, st.start, i as int);
            }
            if end - offset < 16 {
                offset = end;
                out.push(offset);
                assert(out@ =~= prev_out.push(end as usize));
            } else {
                let mut k: usize = start;
                while k < i
                    invariant
                        chars@ == link@,
                        n == chars@.len(),
                        total == encode_utf8(link@).len(),
                        st.start <= k <= i < n,
                        offset as int == link_pos(link@, k as int),
                        out@.len() == prev_out.len() + (k - st.start),
                        forall|m: int| 0 <= m < prev_out.len() ==> #[trigger] out@[m] == prev_out[m],
                        forall|m: int|
                            prev_out.len() <= m < out@.len() ==> #[trigger] out@[m] as int
                                == link_pos(link@, st.start + (m - prev_out.len()) + 1),
                    decreases i - k,
                {
                    proof {
                        lemma_link_pos_step(link@, k as int);
                        lemma_link_pos_bounds(link@, k + 1, n as int);
                    }
                    offset = offset + len_utf8(chars[k]);
                    out.push(offset);
                    k += 1;
                }
            }
            start = i;
        }
        prev = class;
        end = end + len_utf8(c);
        i += 1;
    }
    out
}

/// The frame of two lines merged: the second line goes below the first one
/// with `leading` between them, and the frame grows to hold both.
pub open spec fn spec_merged(first: FrameView, second: Frame, leading: Abs) -> FrameView {
    let offset = first.size.y.0 + leading.0;
    let total = offset + second@.size.y.0;
    let pushed = spec_push_frame(
        first,
        Point { x: Abs(0), y: Abs(offset as i64) },
        second,
    );
    FrameView { size: Axes { x: pushed.size.x, y: Abs(total as i64) }, ..pushed }
}

/// Merge two line frames.
pub fn merge(first: &mut Frame, second: Frame, leading: Abs)
    requires
        in_range(old(first)@.size.y.0 + leading.0),
        in_range(old(first)@.size.y.0 + leading.0 + second@.size.y.0),
        spec_should_inline(old(first)@, second@) ==> spec_translatable(
            second@.items,
            Point { x: Abs(0), y: Abs((old(first)@.size.y.0 + leading.0) as i64) },
        ),
    ensures
        final(first)@ == spec_merged(old(first)@, second, leading),
{
    let offset = first.height().plus(leading);
    let total = offset.plus(second.height());
    first.push_frame(Point::with_y(offset), second);
    let w = first.width();
    first.set_size(Axes::new(w, total));
}

/// Maps byte offsets of a paragraph's text back to the spans of the source
/// segments they came from.
pub struct SpanMapper(pub Vec<(usize, Span)>);

/// The byte offset at which the segment with index `i` starts.
pub open spec fn segment_start(segments: Seq<(usize, Span)>, i: int) -> int
    decreases i,
{
    if i <= 0 {
        0
    } else {
        segment_start(segments, i - 1) + segments[i - 1].0
    }
}

/// The span and offset within it of the byte offset `offset`: the first
/// segment whose range, its end included, holds the offset, with the offset
/// relative to the segment's start if that fits in 16 bits, else zero; a
/// detached span if no segment holds it.
pub open spec fn spec_span_at(segments: Seq<(usize, Span)>, offset: int, i: int) -> (Span, u16)
    decreases segments.len() - i,
{
    if i >= segments.len() || i < 0 {
        (Span(0), 0)
    } else {
        let start = segment_start(segments, i);
        if start <= offset <= start + segments[i].0 {
            let rel = offset - start;
            (segments[i].1, if rel <= u16::MAX { rel as u16 } else { 0 })
        } else {
            spec_span_at(segments, offset, i + 1)
        }
    }
}

impl SpanMapper {
    /// Create a new span mapper.
    pub fn new() -> (r: Self)
        ensures
            r.0@ == Seq::<(usize, Span)>::empty(),
    {
        SpanMapper(Vec::new())
    }

    /// Push a span for a segment with the given length.
    pub fn push(&mut self, len: usize, span: Span)
        ensures
            final(self).0@ == old(self).0@.push((len, span)),
    {
        self.0.push((len, span));
    }

    /// Determine the span at the given byte offset.
    ///
    /// May return a detached span.
    pub fn span_at(&self, offset: usize) -> (r: (Span, u16))
        requires
            segment_start(self.0@, self.0@.len() as int) <= usize::MAX,
        ensures
            r == spec_span_at(self.0@, offset as int, 0),
    {
        let mut cursor: usize = 0;
        let mut i: usize = 0;
        while i < self.0.len()
            invariant
                i <= self.0@.len(),
                cursor == segment_start(self.0@, i as int),
                segment_start(self.0@, self.0@.len() as int) <= usize::MAX,
                spec_span_at(self.0@, offset as int, 0) == spec_span_at(self.0@, offset as int, i as int),
            decreases self.0@.len() - i,
        {
            proof {
                lemma_segment_start_grows(self.0@, i + 1, self.0@.len() as int);
            }
            let (len, span) = self.0[i];
            if cursor <= offset && offset <= cursor + len {
                let rel = offset - cursor;
                let r: u16 = if rel <= 0xffff {
                    rel as u16
                } else {
                    0
                };
                return (span, r);
            }
            cursor = cursor + len;
            i += 1;
        }
        (Span::detached(), 0)
    }
}

/// Segment starts never decrease.
proof fn lemma_segment_start_grows(segments: Seq<(usize, Span)>, i: int, k: int)
    requires
        0 <= i <= k <= segments.len(),
    ensures
        segment_start(segments, i) <= segment_start(segments, k),
    decreases k - i,
{
    if i < k {
        lemma_segment_start_grows(segments, i, k - 1);
    }
}


/// The character by which spacing is replaced in a paragraph's full text.
pub const SPACING_REPLACE: char = ' ';

/// The character by which inline content is replaced in a paragraph's full
/// text.
pub const OBJ_REPLACE: char = '\u{FFFC}';

/// The number of bytes of the UTF-8 encoding of `c`.
pub open spec fn char_len(c: char) -> int {
    encode_scalar(c as u32).len() as int
}

/// A segment of one or multiple collapsed children.
#[derive(Clone, Copy, PartialEq, Eq, Hash, Debug)]
pub enum Segment {
    /// One or multiple collapsed text or text-equivalent children. Stores how
    /// long the segment is (in bytes of the full text string).
    Text(usize),
    /// Horizontal spacing between other segments.
    Spacing(Spacing),
    /// A mathematical equation.
    Equation(Content),
    /// A box with arbitrary content, and whether it is fractionally sized.
    Box(Content, bool),
    /// Metadata.
    Meta,
}

impl Segment {
    /// The text length of the segment: spacing and fractional boxes stand
    /// for a space, equations and other boxes for an object replacement
    /// character.
    pub open spec fn spec_len(self) -> int {
        match self {
            Segment::Text(len) => len as int,
            Segment::Spacing(_) => char_len(SPACING_REPLACE),
            Segment::Box(_, true) => char_len(SPACING_REPLACE),
            Segment::Equation(_) | Segment::Box(_, _) => char_len(OBJ_REPLACE),
            Segment::Meta => 0,
        }
    }

    /// The text length of the segment.
    pub fn len(&self) -> (r: usize)
        ensures
            r == self.spec_len(),
    {
        match *self {
            Segment::Text(len) => len,
            Segment::Spacing(_) => len_utf8(SPACING_REPLACE),
            Segment::Box(_, true) => len_utf8(SPACING_REPLACE),
            Segment::Equation(_) | Segment::Box(_, _) => len_utf8(OBJ_REPLACE),
            Segment::Meta => 0,
        }
    }
}

/// A run of shaped text, with what the paragraph's items read of it.
#[derive(Clone, Copy, PartialEq, Eq, Hash, Debug)]
pub struct ShapedText {
    /// The byte offset of the run's text in the paragraph's text.
    pub base: usize,
    /// The byte length of the run's text.
    pub text_len: usize,
    /// The natural width of the run.
    pub width: Abs,
}

/// A prepared item in a paragraph layout.
#[derive(Debug)]
pub enum Item {
    /// A shaped text run with consistent style and direction.
    Text(ShapedText),
    /// Absolute spacing between other items.
    Absolute(Abs),
    /// Fractional spacing between other items, with the box that it stems
    /// from and its styles, if any.
    Fractional(Fr, Option<(Content, StyleChain)>),
    /// Layouted inline-level content.
    Frame(Frame),
    /// Metadata.
    Meta(Frame),
}

impl Item {
    /// The text length of the item: spacing stands for a space, a frame for
    /// an object replacement character.
    pub open spec fn spec_len(self) -> int {
        match self {
            Item::Text(shaped) => shaped.text_len as int,
            Item::Absolute(_) | Item::Fractional(_, _) => char_len(SPACING_REPLACE),
            Item::Frame(_) => char_len(OBJ_REPLACE),
            Item::Meta(_) => 0,
        }
    }

    /// The natural layouted width of the item.
    pub open spec fn spec_width(self) -> Abs {
        match self {
            Item::Text(shaped) => shaped.width,
            Item::Absolute(v) => v,
            Item::Frame(frame) => frame@.size.x,
            Item::Fractional(_, _) | Item::Meta(_) => Abs(0),
        }
    }

    /// If this a text item, return it.
    pub fn text(&self) -> (r: Option<&ShapedText>)
        ensures
            r == (match *self {
                Item::Text(shaped) => Some(&shaped),
                _ => None,
            }),
    {
        match self {
            Item::Text(shaped) => Some(shaped),
            _ => None,
        }
    }

    /// If this a text item, return it for modification.
    pub fn text_mut(&mut self) -> (r: Option<&mut ShapedText>)
        ensures
            match *old(self) {
                Item::Text(s) => r matches Some(shaped) && *shaped == s && *final(self) == Item::Text(
                    *final(shaped),
                ),
                _ => r is None && *final(self) == *old(self),
            },
    {
        match self {
            Item::Text(shaped) => Some(shaped),
            _ => None,
        }
    }

    /// The text length of the item.
    pub fn len(&self) -> (r: usize)
        ensures
            r == self.spec_len(),
    {
        match self {
            Item::Text(shaped) => shaped.text_len,
            Item::Absolute(_) | Item::Fractional(_, _) => len_utf8(SPACING_REPLACE),
            Item::Frame(_) => len_utf8(OBJ_REPLACE),
            Item::Meta(_) => 0,
        }
    }

    /// The natural layouted width of the item.
    pub fn width(&self) -> (r: Abs)
        ensures
            r == self.spec_width(),
    {
        match self {
            Item::Text(shaped) => shaped.width,
            Item::Absolute(v) => *v,
            Item::Frame(frame) => frame.width(),
            Item::Fractional(_, _) | Item::Meta(_) => Abs::zero(),
        }
    }
}

/// The byte offset in the paragraph's text at which the item with index `i`
/// starts.
pub open spec fn item_offset(items: Seq<Item>, i: int) -> int
    decreases i,
{
    if i <= 0 {
        0
    } else {
        item_offset(items, i - 1) + items[i - 1].spec_len()
    }
}

/// Whether the item with index `i` holds the byte offset `offset`.
pub open spec fn item_holds(items: Seq<Item>, i: int, offset: int) -> bool {
    item_offset(items, i) <= offset < item_offset(items, i + 1)
}

/// Item offsets grow with the index.
pub proof fn lemma_item_offset_grows(items: Seq<Item>, i: int, j: int)
    requires
        0 <= i <= j,
    ensures
        item_offset(items, i) <= item_offset(items, j),
    decreases j - i,
{
    if i < j {
        lemma_item_offset_grows(items, i, j - 1);
    }
}

/// Where `slice` stops scanning items for a range ending at `end`: at the
/// first item from `i` on that starts at or after `end` and reaches past it,
/// or after the last item.
pub open spec fn slice_stop(items: Seq<Item>, end: int, i: int) -> int
    decreases items.len() - i,
{
    if i < 0 || i >= items.len() {
        items.len() as int
    } else if item_offset(items, i) < end || item_offset(items, i + 1) <= end {
        slice_stop(items, end, i + 1)
    } else {
        i
    }
}

/// The last of the first `m` items that starts at or before `start`, or the
/// first item.
pub open spec fn slice_first(items: Seq<Item>, start: int, m: int) -> int
    decreases m,
{
    if m <= 1 {
        0
    } else if item_offset(items, m - 1) <= start {
        m - 1
    } else {
        slice_first(items, start, m - 1)
    }
}

/// The slice of the items for the byte range `start..end`: the expanded
/// range's start and end, and the index range of the items. The items go up
/// to where the scan stops; the first is the last scanned one that starts at
/// or before `start`. The expanded range spans those items, or keeps the
/// range's bound where no item was scanned or passed.
pub open spec fn spec_slice(items: Seq<Item>, start: int, end: int) -> (int, int, int, int) {
    let n = items.len() as int;
    let b = slice_stop(items, end, 0);
    let m = if b < n {
        b + 1
    } else {
        n
    };
    let first = slice_first(items, start, m);
    (
        if m > 0 {
            item_offset(items, first)
        } else {
            start
        },
        if b > 0 {
            item_offset(items, b)
        } else {
            end
        },
        first,
        b,
    )
}

proof fn lemma_slice_stop(items: Seq<Item>, end: int, i: int)
    requires
        0 <= i <= items.len(),
    ensures
        i <= slice_stop(items, end, i) <= items.len(),
        slice_stop(items, end, i) < items.len() ==> item_offset(items, slice_stop(items, end, i))
            >= end,
    decreases items.len() - i,
{
    if i < items.len() && (item_offset(items, i) < end || item_offset(items, i + 1) <= end) {
        lemma_slice_stop(items, end, i + 1);
    }
}

proof fn lemma_slice_first(items: Seq<Item>, start: int, m: int)
    requires
        0 <= start,
    ensures
        0 <= slice_first(items, start, m),
        m >= 1 ==> slice_first(items, start, m) < m,
        item_offset(items, slice_first(items, start, m)) <= start,
    decreases m,
{
    if m > 1 && item_offset(items, m - 1) > start {
        lemma_slice_first(items, start, m - 1);
    }
}

/// The expanded range of a slice holds the sliced range wherever that lies
/// within the paragraph's text.
pub proof fn lemma_slice_covers(items: Seq<Item>, start: int, end: int)
    requires
        0 <= start <= end <= item_offset(items, items.len() as int),
    ensures
        spec_slice(items, start, end).0 <= start,
        end <= spec_slice(items, start, end).1,
{
    let n = items.len() as int;
    lemma_slice_stop(items, end, 0);
    let b = slice_stop(items, end, 0);
    let m = if b < n {
        b + 1
    } else {
        n
    };
    lemma_slice_first(items, start, m);
}

/// A paragraph representation in which children are already layouted and
/// text is already preshaped.
pub struct Preparation {
    /// Text runs, spacing and layouted elements.
    pub items: Vec<Item>,
    /// The span mapper.
    pub spans: SpanMapper,
    /// Whether to hyphenate if it's the same for all children.
    pub hyphenate: Option<bool>,
    /// The paragraph's resolved horizontal alignment.
    pub align: FixedAlignment,
    /// Whether to justify the paragraph.
    pub justify: bool,
    /// The paragraph's hanging indent.
    pub hang: Abs,
    /// Whether to add spacing between CJK and Latin characters.
    pub cjk_latin_spacing: bool,
    /// Whether font fallback is enabled for this paragraph.
    pub fallback: bool,
    /// The leading of the paragraph.
    pub leading: Abs,
    /// The text size.
    pub size: Abs,
}

impl Preparation {
    /// Find the item that contains the given `text_offset`.
    pub fn find(&self, text_offset: usize) -> (r: Option<&Item>)
        requires
            item_offset(self.items@, self.items@.len() as int) <= usize::MAX,
        ensures
            r is Some <==> exists|i: int|
                0 <= i < self.items@.len() && item_holds(self.items@, i, text_offset as int),
            r matches Some(item) ==> exists|i: int|
                0 <= i < self.items@.len() && item_holds(self.items@, i, text_offset as int)
                    && *item == self.items@[i],
    {
        let ghost items = self.items@;
        let n: usize = self.items.len();
        let mut cursor: usize = 0;
        let mut i: usize = 0;
        while i < n
            invariant
                i <= n == items.len(),
                items == self.items@,
                cursor == item_offset(items, i as int),
                item_offset(items, n as int) <= usize::MAX,
                forall|k: int| 0 <= k < i ==> !item_holds(items, k, text_offset as int),
            decreases n - i,
        {
            proof {
                lemma_item_offset_grows(items, i + 1, n as int);
            }
            let end: usize = cursor + self.items[i].len();
            if cursor <= text_offset && text_offset < end {
                assert(item_holds(items, i as int, text_offset as int));
                return Some(&self.items[i]);
            }
            cursor = end;
            i += 1;
        }
        None
    }

    /// Return the items that intersect the given `text_range`.
    ///
    /// Returns the expanded range around the items and the items.
    pub fn slice(&self, text_range: Range<usize>) -> (r: (Range<usize>, &[Item]))
        requires
            item_offset(self.items@, self.items@.len() as int) <= usize::MAX,
        ensures
            ({
                let (expanded_start, expanded_end, first, stop) = spec_slice(
                    self.items@,
                    text_range.start as int,
                    text_range.end as int,
                );
                &&& r.0.start == expanded_start
                &&& r.0.end == expanded_end
                &&& 0 <= first <= stop <= self.items@.len()
                &&& r.1@ == self.items@.subrange(first, stop)
            }),
    {
        let ghost items = self.items@;
        let ghost rs = text_range.start as int;
        let ghost re = text_range.end as int;
        let n: usize = self.items.len();
        let mut cursor: usize = 0;
        let mut start: usize = 0;
        let mut end: usize = 0;
        let mut expanded_start = text_range.start;
        let mut expanded_end = text_range.end;
        let mut i: usize = 0;
        let mut done = false;
        while i < n && !done
            invariant
                i <= n == items.len(),
                items == self.items@,
                rs == text_range.start,
                re == text_range.end,
                item_offset(items, n as int) <= usize::MAX,
                cursor == item_offset(items, i as int),
                end == i,
                expanded_end == if i > 0 {
                    item_offset(items, i as int)
                } else {
                    re
                },
                !done ==> slice_stop(items, re, 0) == slice_stop(items, re, i as int),
                !done ==> start == slice_first(items, rs, i as int),
                !done ==> expanded_start == if i > 0 {
                    item_offset(items, start as int)
                } else {
                    rs
                },
                done ==> i < n && slice_stop(items, re, 0) == i,
                done ==> start == slice_first(items, rs, i + 1),
                done ==> expanded_start == item_offset(items, start as int),
                start <= i,
            decreases 2 * (n - i) + if done {
                0int
            } else {
                1int
            },
        {
            proof {
                lemma_item_offset_grows(items, i + 1, n as int);
                lemma_item_offset_grows(items, i as int, i + 1);
            }
            if cursor <= text_range.start {
                start = i;
                expanded_start = cursor;
            }
            let len: usize = self.items[i].len();
            if cursor < text_range.end || cursor + len <= text_range.end {
                end = i + 1;
                expanded_end = cursor + len;
                cursor = cursor + len;
                i += 1;
            } else {
                done = true;
            }
        }
        let sliced = vstd::slice::slice_subrange(self.items.as_slice(), start, end);
        (Range { start: expanded_start, end: expanded_end }, sliced)
    }
}


/// A layouted line, consisting of a sequence of layouted paragraph items that
/// are mostly borrowed from the preparation phase.
///
/// At most two items are created for the line itself: the first and the last
/// one, since the start or end of the line may break them apart.
pub struct Line<'a> {
    /// The trimmed range the line spans in the paragraph.
    pub trimmed: Range<usize>,
    /// The untrimmed end where the line ends.
    pub end: usize,
    /// A reshaped text item if the line sliced up a text item at the start.
    pub first: Option<Item>,
    /// Inner items which don't need to be reprocessed.
    pub inner: &'a [Item],
    /// A reshaped text item if the line sliced up a text item at the end.
    pub last: Option<Item>,
    /// The width of the line.
    pub width: Abs,
    /// Whether the line should be justified.
    pub justify: bool,
    /// Whether the line ends with a hyphen or dash, either naturally or
    /// through hyphenation.
    pub dash: Option<Dash>,
}

/// The items of an optional item.
pub open spec fn opt_items(item: Option<Item>) -> Seq<Item> {
    match item {
        Some(item) => seq![item],
        None => Seq::empty(),
    }
}

/// The sum of the fractions of the fractional items.
pub open spec fn spec_fr_sum(items: Seq<Item>) -> int
    decreases items.len(),
{
    if items.len() == 0 {
        0
    } else {
        spec_fr_sum(items.drop_last()) + match items.last() {
            Item::Fractional(fr, _) => fr.0 as int,
            _ => 0,
        }
    }
}

/// Whether an item is spacing or a frame of negative width.
pub open spec fn spec_negative_width(item: Item) -> bool {
    match item {
        Item::Absolute(amount) => amount.0 < 0,
        Item::Frame(frame) => frame@.size.x.0 < 0,
        _ => false,
    }
}

impl<'a> Line<'a> {
    /// The line's items: the first, the inner ones, and the last.
    pub open spec fn spec_items(&self) -> Seq<Item> {
        opt_items(self.first) + self.inner@ + opt_items(self.last)
    }

    /// The item with index `i`.
    fn item_at(&self, i: usize) -> (r: &Item)
        requires
            i < self.spec_items().len(),
        ensures
            *r == self.spec_items()[i as int],
    {
        let k: usize = match &self.first {
            Some(item) => {
                if i == 0 {
                    return item;
                }
                i - 1
            },
            None => i,
        };
        match &self.last {
            Some(item) => if k < self.inner.len() {
                &self.inner[k]
            } else {
                item
            },
            None => &self.inner[k],
        }
    }

    /// The number of the line's items.
    fn item_count(&self) -> (r: usize)
        requires
            self.inner@.len() + 2 <= usize::MAX,
        ensures
            r == self.spec_items().len(),
    {
        let mut n: usize = self.inner.len();
        if self.first.is_some() {
            n += 1;
        }
        if self.last.is_some() {
            n += 1;
        }
        n
    }

    /// Iterate over the line's items.
    pub fn items(&self) -> (r: Vec<&Item>)
        requires
            self.inner@.len() + 2 <= usize::MAX,
        ensures
            r@.len() == self.spec_items().len(),
            forall|i: int| 0 <= i < r@.len() ==> *r@[i] == self.spec_items()[i],
    {
        let n: usize = self.item_count();
        let mut out: Vec<&Item> = Vec::new();
        let mut i: usize = 0;
        while i < n
            invariant
                i <= n == self.spec_items().len(),
                out@.len() == i,
                forall|k: int| 0 <= k < i ==> *out@[k] == self.spec_items()[k],
            decreases n - i,
        {
            out.push(self.item_at(i));
            i += 1;
        }
        out
    }

    /// Return items that intersect the given `text_range`: the items up to
    /// where the scan stops, from the last scanned one that starts at or
    /// before the range's start, with the items' offsets counted from the
    /// start of the trimmed range.
    pub fn slice(&self, text_range: Range<usize>) -> (r: Vec<&Item>)
        requires
            self.inner@.len() + 2 <= usize::MAX,
            self.trimmed.start + item_offset(self.spec_items(), self.spec_items().len() as int)
                <= usize::MAX,
        ensures
            ({
                let items = self.spec_items();
                let base = self.trimmed.start as int;
                let stop = slice_stop(items, text_range.end - base, 0);
                let m = if stop < items.len() {
                    stop + 1
                } else {
                    items.len() as int
                };
                let first = slice_first(items, text_range.start - base, m);
                &&& r@.len() == stop - first
                &&& forall|i: int| 0 <= i < r@.len() ==> *r@[i] == items[first + i]
            }),
    {
        let ghost items = self.spec_items();
        let ghost base = self.trimmed.start as int;
        let ghost rs = text_range.start - base;
        let ghost re = text_range.end - base;
        let n: usize = self.item_count();
        let mut cursor: usize = self.trimmed.start;
        let mut start: usize = 0;
        let mut end: usize = 0;
        let mut i: usize = 0;
        let mut done = false;
        while i < n && !done
            invariant
                i <= n == items.len(),
                items == self.spec_items(),
                base == self.trimmed.start,
                rs == text_range.start - base,
                re == text_range.end - base,
                base + item_offset(items, n as int) <= usize::MAX,
                cursor == base + item_offset(items, i as int),
                end == i,
                !done ==> slice_stop(items, re, 0) == slice_stop(items, re, i as int),
                !done ==> start == slice_first(items, rs, i as int),
                done ==> i < n && slice_stop(items, re, 0) == i,
                done ==> start == slice_first(items, rs, i + 1),
                start <= i,
            decreases 2 * (n - i) + if done {
                0int
            } else {
                1int
            },
        {
            proof {
                lemma_item_offset_grows(items, i + 1, n as int);
                lemma_item_offset_grows(items, i as int, i + 1);
            }
            if cursor <= text_range.start {
                start = i;
            }
            let len: usize = self.item_at(i).len();
            if cursor < text_range.end || cursor + len <= text_range.end {
                end = i + 1;
                cursor = cursor + len;
                i += 1;
            } else {
                done = true;
            }
        }
        let mut out: Vec<&Item> = Vec::new();
        let mut k: usize = start;
        while k < end
            invariant
                start <= k <= end <= n == items.len(),
                items == self.spec_items(),
                out@.len() == k - start,
                forall|j: int| 0 <= j < out@.len() ==> *out@[j] == items[start + j],
            decreases end - k,
        {
            out.push(self.item_at(k));
            k += 1;
        }
        out
    }

    /// Whether the line has items with negative width.
    pub fn has_negative_width_items(&self) -> (r: bool)
        requires
            self.inner@.len() + 2 <= usize::MAX,
        ensures
            r <==> exists|i: int|
                0 <= i < self.spec_items().len() && spec_negative_width(
                    #[trigger] self.spec_items()[i],
                ),
    {
        let n: usize = self.item_count();
        let mut i: usize = 0;
        while i < n
            invariant
                i <= n == self.spec_items().len(),
                forall|k: int| 0 <= k < i ==> !spec_negative_width(#[trigger] self.spec_items()[k]),
            decreases n - i,
        {
            let negative = match self.item_at(i) {
                Item::Absolute(amount) => amount.0 < 0,
                Item::Frame(frame) => frame.width().0 < 0,
                _ => false,
            };
            if negative {
                return true;
            }
            i += 1;
        }
        false
    }

    /// The sum of fractions in the line.
    pub fn fr(&self) -> (r: Fr)
        requires
            self.inner@.len() + 2 <= usize::MAX,
            forall|k: int|
                0 <= k <= self.spec_items().len() ==> in_range(
                    #[trigger] spec_fr_sum(self.spec_items().take(k)),
                ),
        ensures
            r.0 == spec_fr_sum(self.spec_items()),
    {
        let ghost items = self.spec_items();
        let n: usize = self.item_count();
        let mut sum = Fr::zero();
        let mut i: usize = 0;
        while i < n
            invariant
                i <= n == items.len(),
                items == self.spec_items(),
                forall|k: int| 0 <= k <= items.len() ==> in_range(
                    #[trigger] spec_fr_sum(items.take(k)),
                ),
                sum.0 == spec_fr_sum(items.take(i as int)),
            decreases n - i,
        {
            assert(items.take(i + 1).drop_last() =~= items.take(i as int));
            assert(in_range(spec_fr_sum(items.take(i + 1))));
            match self.item_at(i) {
                Item::Fractional(fr, _) => {
                    sum = sum.plus(*fr);
                },
                _ => {},
            }
            i += 1;
        }
        assert(items.take(n as int) =~= items);
        sum
    }
}


/// Whether merging `second` below `first` with `leading` between them stays
/// in the range of lengths.
pub open spec fn spec_merge_fits(first: FrameView, second: Frame, leading: Abs) -> bool {
    &&& in_range(first.size.y.0 + leading.0)
    &&& in_range(first.size.y.0 + leading.0 + second@.size.y.0)
    &&& spec_should_inline(first, second@) ==> spec_translatable(
        second@.items,
        Point { x: Abs(0), y: Abs((first.size.y.0 + leading.0) as i64) },
    )
}

/// The frames of the lines after orphan prevention: where it is enabled and
/// the second line holds items, the first two lines merge into one frame.
pub open spec fn spec_after_orphans(frames: Seq<Frame>, leading: Abs, orphans: bool) -> Seq<
    FrameView,
> {
    let views = frames.map_values(|f: Frame| f@);
    if orphans && frames.len() >= 2 && frames[1]@.items.len() > 0 {
        seq![spec_merged(frames[0]@, frames[1], leading)] + views.skip(2)
    } else {
        views
    }
}

/// Whether widow prevention merges the last two lines: where it is enabled
/// and the second-to-last frame after orphan prevention holds items.
pub open spec fn spec_merges_widow(frames: Seq<Frame>, leading: Abs, orphans: bool, widows: bool) -> bool {
    let o = spec_after_orphans(frames, leading, orphans);
    widows && o.len() >= 2 && o[o.len() - 2].items.len() > 0
}

/// The frames of the lines after orphan and widow prevention: where widow
/// prevention applies, the last line merges into the one before it.
pub open spec fn spec_finalized(frames: Seq<Frame>, leading: Abs, orphans: bool, widows: bool) -> Seq<
    FrameView,
> {
    let o = spec_after_orphans(frames, leading, orphans);
    if spec_merges_widow(frames, leading, orphans, widows) {
        o.take(o.len() - 2).push(spec_merged(o[o.len() - 2], frames.last(), leading))
    } else {
        o
    }
}

/// Whether orphan and widow prevention stay in the range of lengths.
pub open spec fn spec_finalize_fits(frames: Seq<Frame>, leading: Abs, orphans: bool, widows: bool) -> bool {
    let o = spec_after_orphans(frames, leading, orphans);
    &&& orphans && frames.len() >= 2 && frames[1]@.items.len() > 0 ==> spec_merge_fits(
        frames[0]@,
        frames[1],
        leading,
    )
    &&& spec_merges_widow(frames, leading, orphans, widows) ==> spec_merge_fits(
        o[o.len() - 2],
        frames.last(),
        leading,
    )
}

/// Prevents orphans and widows in the frames of a paragraph's lines: with
/// orphan prevention, a second line that holds items merges into the first;
/// with widow prevention, the last line merges into the one before it if
/// that one holds items.
pub fn finalize(frames: Vec<Frame>, leading: Abs, orphans: bool, widows: bool) -> (r: Vec<Frame>)
    requires
        spec_finalize_fits(frames@, leading, orphans, widows),
    ensures
        r@.map_values(|f: Frame| f@) == spec_finalized(frames@, leading, orphans, widows),
{
    let ghost input = frames@;
    let ghost o = spec_after_orphans(input, leading, orphans);
    let mut frames = frames;
    if orphans && frames.len() >= 2 && !frames[1].is_empty() {
        let second = frames.remove(1);
        let mut first = frames.remove(0);
        merge(&mut first, second, leading);
        frames.insert(0, first);
        assert(frames@.map_values(|f: Frame| f@) =~= o);
        assert(input.len() >= 3 ==> frames@.last() == input.last());
    } else {
        assert(frames@.map_values(|f: Frame| f@) =~= o);
    }
    if widows {
        let len = frames.len();
        if len >= 2 && !frames[len - 2].is_empty() {
            let second = frames.pop().unwrap();
            let mut first = frames.pop().unwrap();
            merge(&mut first, second, leading);
            frames.push(first);
            assert(frames@.map_values(|f: Frame| f@) =~= spec_finalized(
                input,
                leading,
                orphans,
                widows,
            ));
        }
    }
    frames
}

/// The widest of the lines, or zero without lines.
pub open spec fn spec_max_width(lines: Seq<Line>) -> int
    decreases lines.len(),
{
    if lines.len() == 0 {
        0
    } else {
        let rest = spec_max_width(lines.drop_last());
        let w = lines.last().width.0 as int;
        if lines.len() == 1 || w > rest {
            w
        } else {
            rest
        }
    }
}

/// Whether the fractions of a line sum up within the range of numbers.
pub open spec fn spec_line_fr_fits(line: Line) -> bool {
    &&& line.inner@.len() + 2 <= usize::MAX
    &&& forall|k: int|
        0 <= k <= line.spec_items().len() ==> in_range(
            #[trigger] spec_fr_sum(line.spec_items().take(k)),
        )
}

/// The width of a paragraph: the full width of the region if it expands or a
/// line has fractional spacing, else the widest line plus the hanging
/// indent, but at most the region's width.
pub open spec fn spec_paragraph_width(lines: Seq<Line>, hang: Abs, region: Size, expand: bool) -> int {
    if !expand && forall|i: int| 0 <= i < lines.len() ==> spec_fr_sum(#[trigger] lines[i].spec_items()) == 0 {
        let fit = hang.0 + spec_max_width(lines);
        if region.x.0 <= fit {
            region.x.0 as int
        } else {
            fit
        }
    } else {
        region.x.0 as int
    }
}

/// Determine the paragraph's width: the full width of the region if it
/// should expand or there's fractional spacing, fit-to-width otherwise.
pub fn paragraph_width(lines: &[Line], hang: Abs, region: Size, expand: bool) -> (r: Abs)
    requires
        forall|i: int| 0 <= i < lines@.len() ==> spec_line_fr_fits(#[trigger] lines@[i]),
        in_range(hang.0 + spec_max_width(lines@)),
    ensures
        r.0 == spec_paragraph_width(lines@, hang, region, expand),
{
    let n = lines.len();
    let mut no_fr = true;
    let mut widest = Abs::zero();
    let mut i: usize = 0;
    while i < n
        invariant
            i <= n == lines@.len(),
            forall|k: int| 0 <= k < lines@.len() ==> spec_line_fr_fits(#[trigger] lines@[k]),
            no_fr == forall|k: int| 0 <= k < i ==> spec_fr_sum(#[trigger] lines@[k].spec_items()) == 0,
            widest.0 == spec_max_width(lines@.take(i as int)),
        decreases n - i,
    {
        assert(lines@.take(i + 1).drop_last() =~= lines@.take(i as int));
        let line = &lines[i];
        assert(spec_line_fr_fits(*line));
        let fr = line.fr();
        no_fr = no_fr && fr.0 == 0;
        if i == 0 {
            widest = line.width;
        } else {
            widest = widest.max(line.width);
        }
        i += 1;
    }
    assert(lines@.take(n as int) =~= lines@);
    if !expand && no_fr {
        region.x.min(hang.plus(widest))
    } else {
        region.x
    }
}

/// The widest line is as wide as every line and as wide as one of them.
proof fn lemma_max_width_is_widest(lines: Seq<Line>)
    ensures
        forall|i: int| 0 <= i < lines.len() ==> (#[trigger] lines[i]).width.0 <= spec_max_width(lines),
        lines.len() > 0 ==> exists|i: int| 0 <= i < lines.len() && (#[trigger] lines[i]).width.0 == spec_max_width(lines),
        lines.len() == 0 ==> spec_max_width(lines) == 0,
    decreases lines.len(),
{
    if lines.len() > 0 {
        let p = lines.drop_last();
        lemma_max_width_is_widest(p);
        assert forall|i: int| 0 <= i < lines.len() implies (#[trigger] lines[i]).width.0 <= spec_max_width(lines) by {
            if i < p.len() {
                assert(lines[i] == p[i]);
            }
        }
        if lines.len() == 1 || lines.last().width.0 > spec_max_width(p) {
            assert(lines[lines.len() - 1].width.0 == spec_max_width(lines));
        } else {
            let i = choose|i: int| 0 <= i < p.len() && (#[trigger] p[i]).width.0 == spec_max_width(p);
            assert(lines[i] == p[i]);
        }
    }
}

/// Without expansion and without fractional spacing, a paragraph is as wide
/// as its widest line plus the hanging indent, but no wider than the
/// region: at least that wide for every line (so no line sticks out where
/// the region allows), and exactly that wide for one of them. Otherwise it
/// takes the region's full width.
pub proof fn lemma_paragraph_fits_widest_line(lines: Seq<Line>, hang: Abs, region: Size, expand: bool)
    ensures
        ({
            let w = spec_paragraph_width(lines, hang, region, expand);
            let plain = !expand && forall|i: int|
                0 <= i < lines.len() ==> spec_fr_sum(#[trigger] lines[i].spec_items()) == 0;
            &&& w <= region.x.0
            &&& !plain ==> w == region.x.0
            &&& plain ==> forall|i: int|
                0 <= i < lines.len() ==> w >= if region.x.0 <= hang.0 + (#[trigger] lines[i]).width.0 {
                    region.x.0 as int
                } else {
                    hang.0 + lines[i].width.0
                }
            &&& plain && lines.len() > 0 ==> exists|i: int|
                0 <= i < lines.len() && w == if region.x.0 <= hang.0 + (#[trigger] lines[i]).width.0 {
                    region.x.0 as int
                } else {
                    hang.0 + lines[i].width.0
                }
            &&& plain && lines.len() == 0 ==> w == if region.x.0 <= hang.0 {
                region.x.0 as int
            } else {
                hang.0 as int
            }
        }),
{
    lemma_max_width_is_widest(lines);
    if lines.len() > 0 {
        let i = choose|i: int| 0 <= i < lines.len() && (#[trigger] lines[i]).width.0 == spec_max_width(lines);
        assert(lines[i].width.0 == spec_max_width(lines));
    }
}

} // verus!
