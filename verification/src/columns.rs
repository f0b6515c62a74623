//! Multi-column layout elements.

use vstd::prelude::*;

use crate::content::Content;
use crate::geom::{Abs, Em, Length, NonZeroUsize, Ratio, Rel};

verus! {

/// Separates a region into multiple equally sized columns.
#[derive(Clone, Copy, PartialEq, Eq, Debug)]
pub struct ColumnsElem {
    /// The number of columns.
    pub count: NonZeroUsize,
    /// The size of the gutter space between each column.
    pub gutter: Rel<Length>,
    /// The content that should be layouted into the columns.
    pub body: Content,
}

impl ColumnsElem {
    /// Columns of the body with the defaults: two columns with a gutter of
    /// four percent of the width.
    pub fn new(body: Content) -> (e: Self)
        ensures
            e.count.spec_get() == 2,
            e.gutter == (Rel { rel: Ratio(40_000), abs: Length { abs: Abs(0), em: Em(0) } }),
            e.body == body,
    {
        let count = match NonZeroUsize::new(2) {
            Some(c) => c,
            None => NonZeroUsize::one(),
        };
        ColumnsElem {
            count,
            gutter: Rel { rel: Ratio(40_000), abs: Length { abs: Abs(0), em: Em(0) } },
            body,
        }
    }
}

/// Forces a column break.
#[derive(Clone, Copy, PartialEq, Eq, Structural, Hash, Debug)]
pub struct ColbreakElem {
    /// If `true`, the column break is skipped if the current column is
    /// already empty.
    pub weak: bool,
}

impl ColbreakElem {
    /// A column break that is not weak.
    pub fn new() -> (e: Self)
        ensures
            !e.weak,
    {
        ColbreakElem { weak: false }
    }
}

} // verus!
