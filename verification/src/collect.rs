//! Children of a flow, prepared for layout.

use vstd::prelude::*;

use crate::align::{Alignment, FixedAlignment, HAlignment};
use crate::container::BlockElem;
use crate::content::{Destination, StyleChain, Tag};
use crate::flow::{line_needs, spec_line_need, spec_line_needs_fit, Spacing};
use crate::frame::{spec_post_processed, Frame, FrameView};
use crate::geom::{Abs, Axes, Fr, Ratio, Rel, Size, Smart};
use crate::place::PlaceElem;
use crate::regions::Region;

verus! {

/// A child that encapsulates a layouted line.
pub struct LineChild {
    /// The line's frame.
    pub frame: Frame,
    /// How the line is aligned.
    pub align: Axes<FixedAlignment>,
    /// The space the line needs in the region, together with the lines that
    /// must not be separated from it.
    pub need: Abs,
}

/// A child that encapsulates a prepared block.
pub struct BlockChild {
    /// How the block is aligned.
    pub align: Axes<FixedAlignment>,
    /// Whether the block sticks to the following one.
    pub sticky: bool,
    /// Whether the block may be laid out as the root of the flow.
    pub rootable: bool,
    /// The block element.
    pub elem: BlockElem,
    /// The styles of the block.
    pub styles: StyleChain,
}

/// The frames with each post-processed with the styles' destinations and
/// visibility.
pub open spec fn spec_all_post_processed(
    frames: Seq<Frame>,
    dests: Seq<Destination>,
    hide: bool,
    out: Seq<Frame>,
) -> bool {
    &&& out.len() == frames.len()
    &&& forall|i: int|
        0 <= i < frames.len() ==> spec_post_processed(
            #[trigger] frames[i]@,
            dests,
            hide,
            out[i]@,
        )
}

impl BlockChild {
    /// Build the child's frames from the block laid out into the regions:
    /// each frame is post-processed with the child's styles.
    pub fn layout(&self, fragment: Vec<Frame>) -> (r: Vec<Frame>)
        ensures
            spec_all_post_processed(fragment@, self.styles.dests@, self.styles.hidden, r@),
    {
        let ghost frames = fragment@;
        let mut rest = fragment;
        let mut out: Vec<Frame> = Vec::new();
        let mut i: usize = 0;
        let n = rest.len();
        while i < n
            invariant
                i <= n,
                n == frames.len(),
                rest@ == frames.subrange(i as int, n as int),
                out@.len() == i,
                forall|k: int|
                    0 <= k < i ==> spec_post_processed(
                        #[trigger] frames[k]@,
                        self.styles.dests@,
                        self.styles.hidden,
                        out@[k]@,
                    ),
            decreases n - i,
        {
            let mut frame = rest.remove(0);
            frame.post_process(self.styles.duplicate());
            out.push(frame);
            proof {
                assert(rest@ =~= frames.subrange(i + 1, n as int));
            }
            i += 1;
        }
        out
    }
}

/// A child that encapsulates a prepared placed element.
pub struct PlacedChild {
    /// Whether the placed content floats.
    pub float: bool,
    /// The clearance the placed content keeps to in-flow content.
    pub clearance: Abs,
    /// The displacement of the placed content.
    pub delta: Axes<Rel<Abs>>,
    /// The horizontal alignment.
    pub align_x: FixedAlignment,
    /// The vertical alignment: automatic for floats that pick the top or the
    /// bottom, or none for content where the flow is.
    pub align_y: Smart<Option<FixedAlignment>>,
    /// The placed element.
    pub elem: PlaceElem,
    /// The styles of the placed element.
    pub styles: StyleChain,
    /// The alignment the element was given.
    pub alignment: Smart<Alignment>,
}

impl PlacedChild {
    /// The alignment the body is laid out with: the element's, or else
    /// centered.
    pub fn body_alignment(&self) -> (r: Alignment)
        ensures
            r == match self.alignment {
                Smart::Custom(a) => a,
                Smart::Auto => Alignment::H(HAlignment::Center),
            },
    {
        match self.alignment {
            Smart::Custom(a) => a,
            Smart::Auto => Alignment::H(HAlignment::Center),
        }
    }

    /// The region the body is laid out into: the base size, not expanding.
    pub fn region(&self, base: Size) -> (r: Region)
        ensures
            r.size == base,
            r.expand == (Axes { x: false, y: false }),
    {
        Region::new(base, Axes::new(false, false))
    }

    /// Build the child's frame from the body laid out into
    /// [`PlacedChild::region`] with [`PlacedChild::body_alignment`]: it is
    /// post-processed with the child's styles.
    pub fn layout(&self, frame: Frame) -> (r: Frame)
        ensures
            spec_post_processed(frame@, self.styles.dests@, self.styles.hidden, r@),
    {
        let mut frame = frame;
        frame.post_process(self.styles.duplicate());
        frame
    }
}

/// A prepared child in flow layout.
pub enum Child {
    /// An introspection tag.
    Tag(Tag),
    /// Relative spacing with a specific weakness.
    Rel(Rel<Abs>, u8),
    /// Fractional spacing.
    Fr(Fr),
    /// An already laid-out line of a paragraph.
    Line(LineChild),
    /// A potentially breakable block.
    Block(BlockChild),
    /// An absolutely or floatingly placed element.
    Placed(PlacedChild),
    /// A column break, weak or not.
    Break(bool),
    /// A place flush.
    Flush,
}

/// A paragraph of the flow, with its lines laid out and its styles
/// resolved.
pub struct ParInput {
    /// The laid-out lines.
    pub lines: Vec<Frame>,
    /// How the lines are aligned.
    pub align: Axes<FixedAlignment>,
    /// The spacing between lines.
    pub leading: Abs,
    /// The spacing around the paragraph.
    pub spacing: Abs,
    /// The cost of an orphan line.
    pub orphan_cost: Ratio,
    /// The cost of a widow line.
    pub widow_cost: Ratio,
}

/// A block of the flow with its styles resolved.
pub struct BlockInput {
    /// How the block is aligned.
    pub align: Axes<FixedAlignment>,
    /// Whether the block sticks to the following one.
    pub sticky: bool,
    /// Whether the block may be laid out as the root of the flow.
    pub rootable: bool,
    /// The block element.
    pub elem: BlockElem,
    /// The styles of the block.
    pub styles: StyleChain,
    /// The spacing above the block, or `auto` for the paragraph spacing.
    pub above: Smart<Spacing>,
    /// The spacing below the block, or `auto` for the paragraph spacing.
    pub below: Smart<Spacing>,
    /// The paragraph spacing.
    pub par_spacing: Abs,
}

/// A placed element of the flow with its styles resolved.
pub struct PlaceInput {
    /// Whether the placed content floats.
    pub float: bool,
    /// The clearance the placed content keeps to in-flow content.
    pub clearance: Abs,
    /// The displacement of the placed content.
    pub delta: Axes<Rel<Abs>>,
    /// The horizontal alignment.
    pub align_x: FixedAlignment,
    /// The vertical alignment: automatic, none, or a fixed alignment.
    pub align_y: Smart<Option<FixedAlignment>>,
    /// The placed element.
    pub elem: PlaceElem,
    /// The styles of the placed element.
    pub styles: StyleChain,
    /// The alignment the element was given.
    pub alignment: Smart<Alignment>,
}

/// A child of a flow, with paragraphs laid out into lines and styles
/// resolved.
pub enum FlowInput {
    /// An introspection tag.
    Tag(Tag),
    /// Vertical spacing, weak or not.
    V(Spacing, bool),
    /// A column break, weak or not.
    Colbreak(bool),
    /// A paragraph.
    Par(ParInput),
    /// A block.
    Block(BlockInput),
    /// A placed element.
    Place(PlaceInput),
    /// A place flush.
    Flush,
    /// A page break.
    Pagebreak,
    /// Any other element, by the name of its function.
    Other(String),
}

/// Why the children of a flow cannot be collected.
pub enum CollectError {
    /// Floating placement with a vertical alignment other than `auto`,
    /// `top` or `bottom`.
    FloatAlignment,
    /// Automatic positioning without floating placement.
    AutoPosition,
    /// A page break inside a container.
    Pagebreak,
    /// An element that cannot be part of a flow, by the name of its
    /// function.
    NotAllowed(String),
}

impl CollectError {
    /// The error's message.
    pub fn message(&self) -> (r: String)
        ensures
            r@ == match self {
                CollectError::FloatAlignment => "floating placement must be `auto`, `top`, or `bottom`"@,
                CollectError::AutoPosition => "automatic positioning is only available for floating placement"@,
                CollectError::Pagebreak => "pagebreaks are not allowed inside of containers"@,
                CollectError::NotAllowed(name) => name@ + " is not allowed here"@,
            },
    {
        match self {
            CollectError::FloatAlignment => String::from_str(
                "floating placement must be `auto`, `top`, or `bottom`",
            ),
            CollectError::AutoPosition => String::from_str(
                "automatic positioning is only available for floating placement",
            ),
            CollectError::Pagebreak => String::from_str("pagebreaks are not allowed inside of containers"),
            CollectError::NotAllowed(name) => {
                let mut m = String::from_str(name.as_str());
                m.append(" is not allowed here");
                m
            },
        }
    }
}

/// An absolute length as relative spacing.
pub open spec fn spec_abs_rel(a: Abs) -> Rel<Abs> {
    Rel { rel: Ratio(0), abs: a }
}

/// The weakness of spacing: one for weak spacing, zero otherwise.
pub open spec fn spec_weakness(weak: bool) -> u8 {
    if weak {
        1
    } else {
        0
    }
}

/// The child of spacing around a block: the paragraph spacing with weakness
/// four for `auto`, relative spacing with weakness three, or fractional
/// spacing.
pub open spec fn spec_block_spacing(amount: Smart<Spacing>, par_spacing: Abs) -> Child {
    match amount {
        Smart::Auto => Child::Rel(spec_abs_rel(par_spacing), 4),
        Smart::Custom(Spacing::Rel(rel)) => Child::Rel(rel, 3),
        Smart::Custom(Spacing::Fr(fr)) => Child::Fr(fr),
    }
}

/// The children of the first `k` lines of a paragraph: each line after the
/// first preceded by the leading with weakness five, and each needing the
/// space that keeps orphans and widows from being separated when their
/// costs are positive.
pub open spec fn spec_par_lines(p: ParInput, k: int) -> Seq<Child>
    decreases k,
{
    if k <= 0 {
        seq![]
    } else {
        let lead = if k - 1 > 0 {
            seq![Child::Rel(spec_abs_rel(p.leading), 5)]
        } else {
            seq![]
        };
        let need = spec_line_need(p.lines@, p.leading, p.orphan_cost.0 > 0, p.widow_cost.0 > 0, k - 1);
        spec_par_lines(p, k - 1) + lead + seq![
            Child::Line(LineChild { frame: p.lines@[k - 1], align: p.align, need: Abs(need as i64) }),
        ]
    }
}

/// The children of a paragraph: its lines between the paragraph spacing
/// with weakness four on both sides.
pub open spec fn spec_par_children(p: ParInput) -> Seq<Child> {
    seq![Child::Rel(spec_abs_rel(p.spacing), 4)] + spec_par_lines(p, p.lines@.len() as int) + seq![
        Child::Rel(spec_abs_rel(p.spacing), 4),
    ]
}

/// The children an input becomes, or why it cannot be part of a flow.
pub open spec fn spec_expand(input: FlowInput) -> Result<Seq<Child>, CollectError> {
    match input {
        FlowInput::Tag(t) => Ok(seq![Child::Tag(t)]),
        FlowInput::V(Spacing::Rel(rel), weak) => Ok(seq![Child::Rel(rel, spec_weakness(weak))]),
        FlowInput::V(Spacing::Fr(fr), _) => Ok(seq![Child::Fr(fr)]),
        FlowInput::Colbreak(weak) => Ok(seq![Child::Break(weak)]),
        FlowInput::Par(p) => Ok(spec_par_children(p)),
        FlowInput::Block(b) => Ok(
            seq![
                spec_block_spacing(b.above, b.par_spacing),
                Child::Block(
                    BlockChild {
                        align: b.align,
                        sticky: b.sticky,
                        rootable: b.rootable,
                        elem: b.elem,
                        styles: b.styles,
                    },
                ),
                spec_block_spacing(b.below, b.par_spacing),
            ],
        ),
        FlowInput::Place(p) => if p.float && (p.align_y matches Smart::Custom(a) && (a is None || a
            == Some(FixedAlignment::Center))) {
            Err(CollectError::FloatAlignment)
        } else if !p.float && p.align_y is Auto {
            Err(CollectError::AutoPosition)
        } else {
            Ok(
                seq![
                    Child::Placed(
                        PlacedChild {
                            float: p.float,
                            clearance: p.clearance,
                            delta: p.delta,
                            align_x: p.align_x,
                            align_y: p.align_y,
                            elem: p.elem,
                            styles: p.styles,
                            alignment: p.alignment,
                        },
                    ),
                ],
            )
        },
        FlowInput::Flush => Ok(seq![Child::Flush]),
        FlowInput::Pagebreak => Err(CollectError::Pagebreak),
        FlowInput::Other(name) => Err(CollectError::NotAllowed(name)),
    }
}

/// The children of a flow: each input's children in order, or the error of
/// the first input that cannot be part of a flow.
pub open spec fn spec_collect(inputs: Seq<FlowInput>) -> Result<Seq<Child>, CollectError>
    decreases inputs.len(),
{
    if inputs.len() == 0 {
        Ok(seq![])
    } else {
        match spec_collect(inputs.drop_last()) {
            Err(e) => Err(e),
            Ok(out) => match spec_expand(inputs.last()) {
                Err(e) => Err(e),
                Ok(cs) => Ok(out + cs),
            },
        }
    }
}

/// Whether the lines of each paragraph need space within the range of
/// lengths.
pub open spec fn spec_collect_fits(inputs: Seq<FlowInput>) -> bool {
    forall|i: int|
        0 <= i < inputs.len() ==> (#[trigger] inputs[i] matches FlowInput::Par(p) ==> spec_line_needs_fit(
            p.lines@,
            p.leading,
        ))
}

/// The children of a paragraph.
fn par_children(p: ParInput) -> (r: Vec<Child>)
    requires
        spec_line_needs_fit(p.lines@, p.leading),
    ensures
        r@ == spec_par_children(p),
{
    let ghost orig = p;
    let needs = line_needs(&p.lines, p.leading, p.orphan_cost.0 > 0, p.widow_cost.0 > 0);
    let spacing = Rel { rel: Ratio(0), abs: p.spacing };
    let leading = Rel { rel: Ratio(0), abs: p.leading };
    let align = p.align;
    let mut out: Vec<Child> = Vec::new();
    out.push(Child::Rel(spacing, 4));
    let mut rest = p.lines;
    let n = rest.len();
    let mut i: usize = 0;
    while i < n
        invariant
            i <= n,
            n == orig.lines@.len(),
            needs@.len() == n,
            forall|k: int|
                0 <= k < n ==> #[trigger] needs@[k].0 == spec_line_need(
                    orig.lines@,
                    orig.leading,
                    orig.orphan_cost.0 > 0,
                    orig.widow_cost.0 > 0,
                    k,
                ),
            rest@ == orig.lines@.subrange(i as int, n as int),
            spacing == spec_abs_rel(orig.spacing),
            leading == spec_abs_rel(orig.leading),
            align == orig.align,
            out@ == seq![Child::Rel(spacing, 4)] + spec_par_lines(orig, i as int),
        decreases n - i,
    {
        if i > 0 {
            out.push(Child::Rel(leading, 5));
        }
        proof {
            assert(rest@[0] == orig.lines@[i as int]);
            assert(needs@[i as int].0 == spec_line_need(
                orig.lines@,
                orig.leading,
                orig.orphan_cost.0 > 0,
                orig.widow_cost.0 > 0,
                i as int,
            ));
            assert(needs@[i as int] == Abs(
                spec_line_need(orig.lines@, orig.leading, orig.orphan_cost.0 > 0, orig.widow_cost.0 > 0, i as int)
                    as i64,
            ));
        }
        let frame = rest.remove(0);
        out.push(Child::Line(LineChild { frame, align, need: needs[i] }));
        proof {
            assert(rest@ =~= orig.lines@.subrange(i + 1, n as int));
            assert(out@ =~= seq![Child::Rel(spacing, 4)] + spec_par_lines(orig, i + 1));
        }
        i += 1;
    }
    out.push(Child::Rel(spacing, 4));
    out
}

/// The child of spacing around a block.
fn block_spacing(amount: Smart<Spacing>, par_spacing: Abs) -> (r: Child)
    ensures
        r == spec_block_spacing(amount, par_spacing),
{
    match amount {
        Smart::Auto => Child::Rel(Rel { rel: Ratio(0), abs: par_spacing }, 4),
        Smart::Custom(Spacing::Rel(rel)) => Child::Rel(rel, 3),
        Smart::Custom(Spacing::Fr(fr)) => Child::Fr(fr),
    }
}

/// The children an input becomes, or why it cannot be part of a flow.
fn expand(input: FlowInput) -> (r: Result<Vec<Child>, CollectError>)
    requires
        input matches FlowInput::Par(p) ==> spec_line_needs_fit(p.lines@, p.leading),
    ensures
        match (r, spec_expand(input)) {
            (Ok(v), Ok(s)) => v@ == s,
            (Err(e), Err(f)) => e == f,
            _ => false,
        },
{
    match input {
        FlowInput::Tag(t) => Ok(vec![Child::Tag(t)]),
        FlowInput::V(Spacing::Rel(rel), weak) => Ok(
            vec![
                Child::Rel(
                    rel,
                    if weak {
                        1
                    } else {
                        0
                    },
                ),
            ],
        ),
        FlowInput::V(Spacing::Fr(fr), _) => Ok(vec![Child::Fr(fr)]),
        FlowInput::Colbreak(weak) => Ok(vec![Child::Break(weak)]),
        FlowInput::Par(p) => Ok(par_children(p)),
        FlowInput::Block(b) => {
            let above = block_spacing(b.above, b.par_spacing);
            let below = block_spacing(b.below, b.par_spacing);
            let child = BlockChild {
                align: b.align,
                sticky: b.sticky,
                rootable: b.rootable,
                elem: b.elem,
                styles: b.styles,
            };
            Ok(vec![above, Child::Block(child), below])
        },
        FlowInput::Place(p) => {
            let bad_float = match p.align_y {
                Smart::Custom(None) => true,
                Smart::Custom(Some(FixedAlignment::Center)) => true,
                _ => false,
            };
            let auto = match p.align_y {
                Smart::Auto => true,
                _ => false,
            };
            if p.float && bad_float {
                Err(CollectError::FloatAlignment)
            } else if !p.float && auto {
                Err(CollectError::AutoPosition)
            } else {
                Ok(
                    vec![
                        Child::Placed(
                            PlacedChild {
                                float: p.float,
                                clearance: p.clearance,
                                delta: p.delta,
                                align_x: p.align_x,
                                align_y: p.align_y,
                                elem: p.elem,
                                styles: p.styles,
                                alignment: p.alignment,
                            },
                        ),
                    ],
                )
            }
        },
        FlowInput::Flush => Ok(vec![Child::Flush]),
        FlowInput::Pagebreak => Err(CollectError::Pagebreak),
        FlowInput::Other(name) => Err(CollectError::NotAllowed(name)),
    }
}

/// Collects the children of a flow into prepared children: spacing with
/// its weakness, each paragraph as its lines between paragraph spacing,
/// each block between the spacing above and below it, placed elements,
/// breaks and flushes; fails on the first child that cannot be part of a
/// flow.
pub fn collect(inputs: Vec<FlowInput>) -> (r: Result<Vec<Child>, CollectError>)
    requires
        spec_collect_fits(inputs@),
    ensures
        match (r, spec_collect(inputs@)) {
            (Ok(v), Ok(s)) => v@ == s,
            (Err(e), Err(f)) => e == f,
            _ => false,
        },
{
    let ghost all = inputs@;
    let n = inputs.len();
    let mut rest = inputs;
    let mut out: Vec<Child> = Vec::new();
    let mut i: usize = 0;
    while i < n
        invariant
            i <= n,
            n == all.len(),
            all == inputs@,
            spec_collect_fits(all),
            rest@ == all.subrange(i as int, n as int),
            spec_collect(all.take(i as int)) == Ok::<Seq<Child>, CollectError>(out@),
        decreases n - i,
    {
        proof {
            assert(all.take(i + 1).drop_last() =~= all.take(i as int));
            assert(all.take(i + 1).last() == all[i as int]);
            assert(rest@[0] == all[i as int]);
        }
        let input = rest.remove(0);
        let ghost cur = input;
        proof {
            assert(cur == all[i as int]);
        }
        match expand(input) {
            Ok(mut children) => {
                proof {
                    assert(spec_expand(cur) == Ok::<Seq<Child>, CollectError>(children@));
                }
                out.append(&mut children);
            },
            Err(e) => {
                proof {
                    assert(spec_expand(cur) == Err::<Seq<Child>, CollectError>(e));
                    assert(spec_collect(all.take(i + 1)) == Err::<Seq<Child>, CollectError>(e));
                    lemma_collect_error_stays(all, i + 1);
                    assert(spec_collect(inputs@) == Err::<Seq<Child>, CollectError>(e));
                }
                return Err(e);
            },
        }
        proof {
            assert(rest@ =~= all.subrange(i + 1, n as int));
        }
        i += 1;
    }
    proof {
        assert(all.take(n as int) =~= all);
    }
    Ok(out)
}

/// Once collecting a prefix of the inputs fails, collecting more of them
/// fails with the same error.
proof fn lemma_collect_error_stays(inputs: Seq<FlowInput>, k: int)
    requires
        0 <= k <= inputs.len(),
        spec_collect(inputs.take(k)) is Err,
    ensures
        spec_collect(inputs) == spec_collect(inputs.take(k)),
    decreases inputs.len() - k,
{
    if k < inputs.len() {
        assert(inputs.take(k + 1).drop_last() =~= inputs.take(k));
        lemma_collect_error_stays(inputs, k + 1);
    } else {
        assert(inputs.take(k) =~= inputs);
    }
}

/// The kind of a child of a flow, as far as paragraph layout cares.
#[derive(Clone, Copy, PartialEq, Eq, Structural, Debug)]
pub enum FlowKind {
    /// A paragraph.
    Par,
    /// A block.
    Block,
    /// Any other child.
    Other,
}

/// Whether the last paragraph or block among the children is a paragraph.
pub open spec fn spec_last_was_par(kinds: Seq<FlowKind>) -> bool
    decreases kinds.len(),
{
    if kinds.len() == 0 {
        false
    } else {
        match kinds.last() {
            FlowKind::Par => true,
            FlowKind::Block => false,
            FlowKind::Other => spec_last_was_par(kinds.drop_last()),
        }
    }
}

/// For each child of a flow, whether the last paragraph or block before it
/// is a paragraph: what a paragraph is laid out knowing before it is
/// collected.
pub fn last_was_par(kinds: &Vec<FlowKind>) -> (r: Vec<bool>)
    ensures
        r@.len() == kinds@.len(),
        forall|i: int| 0 <= i < kinds@.len() ==> #[trigger] r@[i] == spec_last_was_par(kinds@.take(i)),
{
    let mut out: Vec<bool> = Vec::new();
    let mut last = false;
    let mut i: usize = 0;
    proof {
        assert(kinds@.take(0) =~= Seq::<FlowKind>::empty());
    }
    while i < kinds.len()
        invariant
            i <= kinds@.len(),
            out@.len() == i,
            last == spec_last_was_par(kinds@.take(i as int)),
            forall|k: int| 0 <= k < i ==> #[trigger] out@[k] == spec_last_was_par(kinds@.take(k)),
        decreases kinds@.len() - i,
    {
        out.push(last);
        proof {
            assert(kinds@.take(i + 1).drop_last() =~= kinds@.take(i as int));
        }
        match kinds[i] {
            FlowKind::Par => {
                last = true;
            },
            FlowKind::Block => {
                last = false;
            },
            FlowKind::Other => {},
        }
        i += 1;
    }
    out
}

} // verus!
