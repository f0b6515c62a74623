//! Placing content relative to its parent.

use vstd::prelude::*;

use crate::align::{Alignment, HAlignment};
use crate::content::Content;
use crate::geom::{Abs, Em, Length, Rel, Smart};

verus! {

/// Relative to which containing scope something shall be placed.
#[derive(Clone, Copy, PartialEq, Eq, Structural, Hash, Debug)]
pub enum PlacementScope {
    /// Place into the current column.
    Column,
    /// Place relative to the parent, letting the content span over all
    /// columns.
    Parent,
}

/// Places content at an absolute position.
#[derive(Clone, Copy, PartialEq, Eq, Structural, Hash, Debug)]
pub struct PlaceElem {
    /// Relative to which position in the parent container to place the
    /// content, or `auto` to place it at the top or the bottom.
    pub alignment: Smart<Alignment>,
    /// Relative to which containing scope the content is placed.
    pub scope: PlacementScope,
    /// Whether the placed content floats.
    pub float: bool,
    /// The amount of clearance the placed content keeps to in-flow content.
    pub clearance: Length,
    /// The horizontal displacement of the placed content.
    pub dx: Rel<Length>,
    /// The vertical displacement of the placed content.
    pub dy: Rel<Length>,
    /// The content to place.
    pub body: Content,
}

impl PlaceElem {
    /// Placed content with the defaults: at the start, in the current
    /// column, not floating, with a clearance of one and a half font sizes
    /// and no displacement.
    pub fn new(body: Content) -> (e: Self)
        ensures
            e == (PlaceElem {
                alignment: Smart::Custom(Alignment::H(HAlignment::Start)),
                scope: PlacementScope::Column,
                float: false,
                clearance: Length { abs: Abs(0), em: Em(1_500_000) },
                dx: Rel::spec_zero(),
                dy: Rel::spec_zero(),
                body,
            }),
    {
        PlaceElem {
            alignment: Smart::Custom(Alignment::H(HAlignment::Start)),
            scope: PlacementScope::Column,
            float: false,
            clearance: Length { abs: Abs(0), em: Em(1_500_000) },
            dx: Rel::zero(),
            dy: Rel::zero(),
            body,
        }
    }
}

/// Asks the layout algorithm to place pending floating elements before
/// continuing with the content.
#[derive(Clone, Copy, PartialEq, Eq, Structural, Hash, Debug)]
pub struct FlushElem {}

} // verus!
