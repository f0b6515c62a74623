//! Handles to values that the engine manages outside of layout.
//!
//! The document tree, source spans and labels are owned by the engine; layout
//! only moves them around, so it holds them as handles.

use vstd::prelude::*;

verus! {

/// A handle to a piece of document content.
#[derive(Clone, Copy, PartialEq, Eq, Structural, Hash, Debug)]
pub struct Content(pub u64);

/// A handle to a source span, used to report errors.
#[derive(Clone, Copy, PartialEq, Eq, Structural, Hash, Debug)]
pub struct Span(pub u64);

impl Span {
    /// The span that points nowhere.
    pub open spec fn spec_detached() -> Span {
        Span(0)
    }

    /// The span that points nowhere.
    pub fn detached() -> (r: Self)
        ensures
            r == Span::spec_detached(),
    {
        Span(0)
    }
}

/// A handle to a label attached to an element.
#[derive(Clone, Copy, PartialEq, Eq, Structural, Hash, Debug)]
pub struct Label(pub u64);

/// A handle to the location of an element in the document.
#[derive(Clone, Copy, PartialEq, Eq, Structural, Hash, Debug)]
pub struct Location(pub u64);

/// A handle to an introspection tag.
#[derive(Clone, Copy, PartialEq, Eq, Structural, Hash, Debug)]
pub struct Tag(pub u64);

/// A handle to a run of shaped text.
#[derive(Clone, Copy, PartialEq, Eq, Structural, Hash, Debug)]
pub struct TextItem(pub u64);

/// A handle to a decoded image.
#[derive(Clone, Copy, PartialEq, Eq, Structural, Hash, Debug)]
pub struct Image(pub u64);

/// A handle to a link destination.
#[derive(Clone, Copy, PartialEq, Eq, Structural, Hash, Debug)]
pub struct Destination(pub u64);

/// The late-stage properties that a style chain supplies to the frames of
/// elements that manage their own styles.
#[derive(Clone, PartialEq, Eq, Hash, Debug)]
pub struct StyleChain {
    /// The link destinations that apply to the content.
    pub dests: Vec<Destination>,
    /// Whether the content is hidden.
    pub hidden: bool,
}

impl StyleChain {
    /// A copy of the style chain.
    pub fn duplicate(&self) -> (r: StyleChain)
        ensures
            r.dests@ == self.dests@,
            r.hidden == self.hidden,
    {
        let mut dests: Vec<Destination> = Vec::new();
        let mut i: usize = 0;
        while i < self.dests.len()
            invariant
                i <= self.dests@.len(),
                dests@ =~= self.dests@.take(i as int),
            decreases self.dests@.len() - i,
        {
            dests.push(self.dests[i]);
            i += 1;
        }
        assert(self.dests@.take(self.dests@.len() as int) =~= self.dests@);
        StyleChain { dests, hidden: self.hidden }
    }
}

/// A handle to a user-defined function managed by the engine.
#[derive(Clone, Copy, PartialEq, Eq, Structural, Hash, Debug)]
pub struct Func(pub u64);

/// A handle to a layout callback of an element, managed by the engine.
#[derive(Clone, Copy, PartialEq, Eq, Structural, Hash, Debug)]
pub struct Callback(pub u64);

/// A handle to a clipping path.
#[derive(Clone, Copy, PartialEq, Eq, Structural, Hash, Debug)]
pub struct Path(pub u64);

} // verus!
