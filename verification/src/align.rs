//! Alignments along one or both axes.

use vstd::prelude::*;

use crate::content::Content;
use crate::geom::{Abs, Axes, Axis, Dir, Side};

verus! {

/// Aligns content horizontally and vertically.
#[derive(Clone, Copy, PartialEq, Eq, Debug)]
pub struct AlignElem {
    /// The alignment along both axes.
    pub alignment: Alignment,
    /// The content to align.
    pub body: Content,
}

/// Where to align something along an axis.
#[derive(Clone, Copy, PartialEq, Eq, Structural, Hash, Debug)]
pub enum Alignment {
    /// A horizontal alignment.
    H(HAlignment),
    /// A vertical alignment.
    V(VAlignment),
    /// An alignment along both axes.
    Both(HAlignment, VAlignment),
}

/// Why two alignments could not be added.
#[derive(Clone, Copy, PartialEq, Eq, Structural, Hash, Debug)]
pub enum AlignError {
    /// Both alignments are horizontal.
    TwoHorizontal,
    /// Both alignments are vertical.
    TwoVertical,
    /// A horizontal and a two-dimensional alignment.
    HorizontalAnd2D,
    /// A vertical and a two-dimensional alignment.
    VerticalAnd2D,
    /// Both alignments are two-dimensional.
    Two2D,
}

impl Alignment {

    /// The horizontal component.
    pub open spec fn spec_x(self) -> Option<HAlignment> {
        match self {
            Alignment::H(x) => Some(x),
            Alignment::Both(x, _) => Some(x),
            Alignment::V(_) => None,
        }
    }

    /// The vertical component.
    pub open spec fn spec_y(self) -> Option<VAlignment> {
        match self {
            Alignment::V(y) => Some(y),
            Alignment::Both(_, y) => Some(y),
            Alignment::H(_) => None,
        }
    }

    /// The inverse alignment.
    pub open spec fn spec_inv(self) -> Alignment {
        match self {
            Alignment::H(h) => Alignment::H(h.spec_inv()),
            Alignment::V(v) => Alignment::V(v.spec_inv()),
            Alignment::Both(h, v) => Alignment::Both(h.spec_inv(), v.spec_inv()),
        }
    }

    /// The alignment folded with an outer one: a missing axis is taken from
    /// the outer alignment.
    pub open spec fn spec_fold(self, outer: Alignment) -> Alignment {
        match (self, outer) {
            (Alignment::H(x), Alignment::V(y)) => Alignment::Both(x, y),
            (Alignment::H(x), Alignment::Both(_, y)) => Alignment::Both(x, y),
            (Alignment::V(y), Alignment::H(x)) => Alignment::Both(x, y),
            (Alignment::V(y), Alignment::Both(x, _)) => Alignment::Both(x, y),
            _ => self,
        }
    }

    /// The horizontal component.
    pub fn x(self) -> (r: Option<HAlignment>)
        ensures
            r == self.spec_x(),
    {
        match self {
            Alignment::H(x) => Some(x),
            Alignment::Both(x, _) => Some(x),
            Alignment::V(_) => None,
        }
    }

    /// The vertical component.
    pub fn y(self) -> (r: Option<VAlignment>)
        ensures
            r == self.spec_y(),
    {
        match self {
            Alignment::V(y) => Some(y),
            Alignment::Both(_, y) => Some(y),
            Alignment::H(_) => None,
        }
    }

    /// Normalize the alignment to a left-to-right, top-to-bottom space. A
    /// missing component counts as the default (`start` and `top`).
    pub fn fix(self, text_dir: Dir) -> (r: Axes<FixedAlignment>)
        ensures
            r.x == (match self.spec_x() {
                Some(h) => h,
                None => HAlignment::Start,
            }).spec_fix(text_dir),
            r.y == (match self.spec_y() {
                Some(v) => v,
                None => VAlignment::Top,
            }).spec_fix(),
    {
        let h = match self.x() {
            Some(h) => h,
            None => HAlignment::Start,
        };
        let v = match self.y() {
            Some(v) => v,
            None => VAlignment::Top,
        };
        Axes::new(h.fix(text_dir), v.fix())
    }

    /// The axis this alignment belongs to, or `None` for two-dimensional
    /// alignments.
    pub fn axis(self) -> (r: Option<Axis>)
        ensures
            r == match self {
                Alignment::H(_) => Some(Axis::X),
                Alignment::V(_) => Some(Axis::Y),
                Alignment::Both(..) => None::<Axis>,
            },
    {
        match self {
            Alignment::H(_) => Some(Axis::X),
            Alignment::V(_) => Some(Axis::Y),
            Alignment::Both(..) => None,
        }
    }

    /// The inverse alignment.
    pub fn inv(self) -> (r: Alignment)
        ensures
            r == self.spec_inv(),
    {
        match self {
            Alignment::H(h) => Alignment::H(h.inv()),
            Alignment::V(v) => Alignment::V(v.inv()),
            Alignment::Both(h, v) => Alignment::Both(h.inv(), v.inv()),
        }
    }

    /// The default alignment: `start + top`.
    pub fn default() -> (r: Alignment)
        ensures
            r == Alignment::Both(HAlignment::Start, VAlignment::Top),
    {
        HAlignment::Start.add(VAlignment::Top)
    }

    /// Adds two alignments: a horizontal and a vertical one make a
    /// two-dimensional alignment, any other combination is an error.
    pub fn add(self, rhs: Alignment) -> (r: Result<Alignment, AlignError>)
        ensures
            r == match (self, rhs) {
                (Alignment::H(x), Alignment::V(y)) => Ok(Alignment::Both(x, y)),
                (Alignment::V(y), Alignment::H(x)) => Ok(Alignment::Both(x, y)),
                (Alignment::H(_), Alignment::H(_)) => Err(AlignError::TwoHorizontal),
                (Alignment::V(_), Alignment::V(_)) => Err(AlignError::TwoVertical),
                (Alignment::H(_), Alignment::Both(..)) => Err(AlignError::HorizontalAnd2D),
                (Alignment::Both(..), Alignment::H(_)) => Err(AlignError::HorizontalAnd2D),
                (Alignment::V(_), Alignment::Both(..)) => Err(AlignError::VerticalAnd2D),
                (Alignment::Both(..), Alignment::V(_)) => Err(AlignError::VerticalAnd2D),
                (Alignment::Both(..), Alignment::Both(..)) => Err::<Alignment, AlignError>(
                    AlignError::Two2D,
                ),
            },
    {
        match (self, rhs) {
            (Alignment::H(x), Alignment::V(y)) => Ok(x.add(y)),
            (Alignment::V(y), Alignment::H(x)) => Ok(x.add(y)),
            (Alignment::H(_), Alignment::H(_)) => Err(AlignError::TwoHorizontal),
            (Alignment::V(_), Alignment::V(_)) => Err(AlignError::TwoVertical),
            (Alignment::H(_), Alignment::Both(..)) => Err(AlignError::HorizontalAnd2D),
            (Alignment::Both(..), Alignment::H(_)) => Err(AlignError::HorizontalAnd2D),
            (Alignment::V(_), Alignment::Both(..)) => Err(AlignError::VerticalAnd2D),
            (Alignment::Both(..), Alignment::V(_)) => Err(AlignError::VerticalAnd2D),
            (Alignment::Both(..), Alignment::Both(..)) => Err(AlignError::Two2D),
        }
    }

    /// Folds this alignment with an outer one: the axis this alignment does
    /// not set is taken from the outer alignment.
    pub fn fold(self, outer: Alignment) -> (r: Alignment)
        ensures
            r == self.spec_fold(outer),
    {
        match (self, outer) {
            (Alignment::H(x), Alignment::V(y)) => Alignment::Both(x, y),
            (Alignment::H(x), Alignment::Both(_, y)) => Alignment::Both(x, y),
            (Alignment::V(y), Alignment::H(x)) => Alignment::Both(x, y),
            (Alignment::V(y), Alignment::Both(x, _)) => Alignment::Both(x, y),
            _ => self,
        }
    }

    /// The alignment towards a side.
    pub fn from_side(side: Side) -> (r: Alignment)
        ensures
            r == match side {
                Side::Left => Alignment::H(HAlignment::Left),
                Side::Top => Alignment::V(VAlignment::Top),
                Side::Right => Alignment::H(HAlignment::Right),
                Side::Bottom => Alignment::V(VAlignment::Bottom),
            },
    {
        match side {
            Side::Left => Alignment::H(HAlignment::Left),
            Side::Top => Alignment::V(VAlignment::Top),
            Side::Right => Alignment::H(HAlignment::Right),
            Side::Bottom => Alignment::V(VAlignment::Bottom),
        }
    }
}

/// Where to align something horizontally.
#[derive(Clone, Copy, PartialEq, Eq, Structural, Hash, Debug)]
pub enum HAlignment {
    /// At the start of the text direction.
    Start,
    /// At the left.
    Left,
    /// In the middle.
    Center,
    /// At the right.
    Right,
    /// At the end of the text direction.
    End,
}

impl HAlignment {
    /// The inverse horizontal alignment.
    pub open spec fn spec_inv(self) -> HAlignment {
        match self {
            HAlignment::Start => HAlignment::End,
            HAlignment::Left => HAlignment::Right,
            HAlignment::Center => HAlignment::Center,
            HAlignment::Right => HAlignment::Left,
            HAlignment::End => HAlignment::Start,
        }
    }

    /// The fixed alignment for a horizontal direction.
    pub open spec fn spec_fix(self, dir: Dir) -> FixedAlignment {
        match self {
            HAlignment::Left => FixedAlignment::Start,
            HAlignment::Center => FixedAlignment::Center,
            HAlignment::Right => FixedAlignment::End,
            HAlignment::Start => if dir.spec_is_positive() {
                FixedAlignment::Start
            } else {
                FixedAlignment::End
            },
            HAlignment::End => if dir.spec_is_positive() {
                FixedAlignment::End
            } else {
                FixedAlignment::Start
            },
        }
    }

    /// The inverse horizontal alignment.
    pub fn inv(self) -> (r: Self)
        ensures
            r == self.spec_inv(),
    {
        match self {
            HAlignment::Start => HAlignment::End,
            HAlignment::Left => HAlignment::Right,
            HAlignment::Center => HAlignment::Center,
            HAlignment::Right => HAlignment::Left,
            HAlignment::End => HAlignment::Start,
        }
    }

    /// Resolve the axis alignment based on the horizontal direction.
    pub fn fix(self, dir: Dir) -> (r: FixedAlignment)
        ensures
            r == self.spec_fix(dir),
    {
        let positive = dir.is_positive();
        match self {
            HAlignment::Left => FixedAlignment::Start,
            HAlignment::Center => FixedAlignment::Center,
            HAlignment::Right => FixedAlignment::End,
            HAlignment::Start => if positive {
                FixedAlignment::Start
            } else {
                FixedAlignment::End
            },
            HAlignment::End => if positive {
                FixedAlignment::End
            } else {
                FixedAlignment::Start
            },
        }
    }

    /// The two-dimensional alignment made of this and a vertical alignment.
    pub fn add(self, rhs: VAlignment) -> (r: Alignment)
        ensures
            r == Alignment::Both(self, rhs),
    {
        Alignment::Both(self, rhs)
    }
}

/// Where to align something vertically. Alignments compare by the order of
/// their variants.
#[derive(Clone, Copy, PartialEq, Eq, Structural, PartialOrd, Ord, Hash, Debug)]
pub enum VAlignment {
    /// At the top.
    Top,
    /// In the middle.
    Horizon,
    /// At the bottom.
    Bottom,
}

impl VAlignment {
    /// The position of the alignment in the order of the variants, by which
    /// vertical alignments compare.
    pub open spec fn spec_rank(self) -> int {
        match self {
            VAlignment::Top => 0,
            VAlignment::Horizon => 1,
            VAlignment::Bottom => 2,
        }
    }

    /// The inverse vertical alignment.
    pub open spec fn spec_inv(self) -> VAlignment {
        match self {
            VAlignment::Top => VAlignment::Bottom,
            VAlignment::Horizon => VAlignment::Horizon,
            VAlignment::Bottom => VAlignment::Top,
        }
    }

    /// The fixed alignment of this vertical alignment.
    pub open spec fn spec_fix(self) -> FixedAlignment {
        match self {
            VAlignment::Top => FixedAlignment::Start,
            VAlignment::Horizon => FixedAlignment::Center,
            VAlignment::Bottom => FixedAlignment::End,
        }
    }

    /// The inverse vertical alignment.
    pub fn inv(self) -> (r: Self)
        ensures
            r == self.spec_inv(),
    {
        match self {
            VAlignment::Top => VAlignment::Bottom,
            VAlignment::Horizon => VAlignment::Horizon,
            VAlignment::Bottom => VAlignment::Top,
        }
    }

    /// Turns into a fixed alignment.
    pub fn fix(self) -> (r: FixedAlignment)
        ensures
            r == self.spec_fix(),
    {
        match self {
            VAlignment::Top => FixedAlignment::Start,
            VAlignment::Horizon => FixedAlignment::Center,
            VAlignment::Bottom => FixedAlignment::End,
        }
    }

    /// The two-dimensional alignment made of this and a horizontal alignment.
    pub fn add(self, rhs: HAlignment) -> (r: Alignment)
        ensures
            r == Alignment::Both(rhs, self),
    {
        Alignment::Both(rhs, self)
    }
}

/// A fixed alignment in the global coordinate space.
///
/// For horizontal alignment, start is globally left and for vertical alignment
/// it is globally top. Alignments compare by the order of their variants.
#[derive(Clone, Copy, PartialEq, Eq, Structural, PartialOrd, Ord, Hash, Debug)]
pub enum FixedAlignment {
    /// At the start (left or top).
    Start,
    /// In the middle.
    Center,
    /// At the end (right or bottom).
    End,
}

/// Half of a raw length, rounded towards zero.
pub open spec fn half(v: int) -> int {
    if v >= 0 {
        v / 2
    } else {
        -((-v) / 2)
    }
}

impl FixedAlignment {
    /// The position of this alignment in a container with the given extent.
    pub open spec fn spec_position(self, extent: Abs) -> int {
        match self {
            FixedAlignment::Start => 0,
            FixedAlignment::Center => half(extent.0 as int),
            FixedAlignment::End => extent.0 as int,
        }
    }

    /// Returns the position of this alignment in a container with the given
    /// extent; the middle is rounded towards zero to a whole unit.
    pub fn position(self, extent: Abs) -> (r: Abs)
        ensures
            r.0 == self.spec_position(extent),
    {
        match self {
            FixedAlignment::Start => Abs(0),
            FixedAlignment::Center => {
                let v = extent.0;
                if v >= 0 {
                    Abs(v / 2)
                } else {
                    let m: i64 = if v == i64::MIN { i64::MAX } else { -v };
                    proof {
                        if v == i64::MIN {
                            assert((-(v as int)) / 2 == (i64::MAX as int) / 2 + 1);
                        }
                    }
                    let h: i64 = m / 2;
                    if v == i64::MIN {
                        Abs(-h - 1)
                    } else {
                        Abs(-h)
                    }
                }
            },
            FixedAlignment::End => extent,
        }
    }

    /// The rank of the alignment: start before center before end, the order
    /// of the variants by which fixed alignments compare.
    pub open spec fn spec_rank(self) -> int {
        match self {
            FixedAlignment::Start => 0,
            FixedAlignment::Center => 1,
            FixedAlignment::End => 2,
        }
    }

    /// The later of two alignments, in the order start, center, end.
    pub open spec fn spec_max(self, other: FixedAlignment) -> FixedAlignment {
        if self.spec_rank() >= other.spec_rank() {
            self
        } else {
            other
        }
    }

    /// The later of two alignments, in the order start, center, end.
    pub fn max(self, other: FixedAlignment) -> (r: FixedAlignment)
        ensures
            r == self.spec_max(other),
    {
        let a: u8 = match self {
            FixedAlignment::Start => 0,
            FixedAlignment::Center => 1,
            FixedAlignment::End => 2,
        };
        let b: u8 = match other {
            FixedAlignment::Start => 0,
            FixedAlignment::Center => 1,
            FixedAlignment::End => 2,
        };
        if a >= b {
            self
        } else {
            other
        }
    }

    /// The earlier of two alignments, in the order start, center, end.
    pub open spec fn spec_min(self, other: FixedAlignment) -> FixedAlignment {
        if self.spec_rank() <= other.spec_rank() {
            self
        } else {
            other
        }
    }

    /// The earlier of two alignments, in the order start, center, end.
    pub fn min(self, other: FixedAlignment) -> (r: FixedAlignment)
        ensures
            r == self.spec_min(other),
    {
        let a: u8 = match self {
            FixedAlignment::Start => 0,
            FixedAlignment::Center => 1,
            FixedAlignment::End => 2,
        };
        let b: u8 = match other {
            FixedAlignment::Start => 0,
            FixedAlignment::Center => 1,
            FixedAlignment::End => 2,
        };
        if a <= b {
            self
        } else {
            other
        }
    }

    /// The fixed alignment towards a side.
    pub fn from_side(side: Side) -> (r: FixedAlignment)
        ensures
            r == match side {
                Side::Left | Side::Top => FixedAlignment::Start,
                Side::Right | Side::Bottom => FixedAlignment::End,
            },
    {
        match side {
            Side::Left => FixedAlignment::Start,
            Side::Top => FixedAlignment::Start,
            Side::Right => FixedAlignment::End,
            Side::Bottom => FixedAlignment::End,
        }
    }
}

/// Inverting an alignment twice gives the alignment back.
pub proof fn lemma_alignment_inv_involution(a: Alignment)
    ensures
        a.spec_inv().spec_inv() == a,
{
}

/// Inverting a horizontal alignment mirrors where it is fixed: start and end
/// swap, the middle stays.
pub proof fn lemma_halignment_inv_mirrors_fix(h: HAlignment, dir: Dir)
    ensures
        h.spec_inv().spec_fix(dir) == match h.spec_fix(dir) {
            FixedAlignment::Start => FixedAlignment::End,
            FixedAlignment::Center => FixedAlignment::Center,
            FixedAlignment::End => FixedAlignment::Start,
        },
{
}

/// Fixing vertical alignments keeps their order: top, horizon and bottom
/// become start, center and end.
pub proof fn lemma_valignment_fix_keeps_order(a: VAlignment, b: VAlignment)
    ensures
        (a.spec_rank() < b.spec_rank()) == (a.spec_fix().spec_rank() < b.spec_fix().spec_rank()),
        a.spec_rank() == a.spec_fix().spec_rank(),
{
}

/// Inverting a vertical alignment mirrors where it is fixed.
pub proof fn lemma_valignment_inv_mirrors_fix(v: VAlignment)
    ensures
        v.spec_inv().spec_fix() == match v.spec_fix() {
            FixedAlignment::Start => FixedAlignment::End,
            FixedAlignment::Center => FixedAlignment::Center,
            FixedAlignment::End => FixedAlignment::Start,
        },
{
}

/// Folding with an outer alignment never loses an axis: the result has every
/// component that either alignment has, preferring the inner one.
pub proof fn lemma_alignment_fold_keeps_inner(a: Alignment, outer: Alignment)
    ensures
        a.spec_fold(outer).spec_x() == match a.spec_x() {
            Some(h) => Some(h),
            None => if a is V { outer.spec_x() } else { None::<HAlignment> },
        },
        a.spec_fold(outer).spec_y() == match a.spec_y() {
            Some(v) => Some(v),
            None => if a is H { outer.spec_y() } else { None::<VAlignment> },
        },
{
}


impl From<HAlignment> for Alignment {
    /// The horizontal alignment as an alignment.
    fn from(v: HAlignment) -> (r: Self) {
        Alignment::H(v)
    }
}

impl vstd::std_specs::convert::FromSpecImpl<HAlignment> for Alignment {
    open spec fn obeys_from_spec() -> bool {
        true
    }

    open spec fn from_spec(v: HAlignment) -> Self {
        Alignment::H(v)
    }
}

impl From<VAlignment> for Alignment {
    /// The vertical alignment as an alignment.
    fn from(v: VAlignment) -> (r: Self) {
        Alignment::V(v)
    }
}

impl vstd::std_specs::convert::FromSpecImpl<VAlignment> for Alignment {
    open spec fn obeys_from_spec() -> bool {
        true
    }

    open spec fn from_spec(v: VAlignment) -> Self {
        Alignment::V(v)
    }
}


impl From<Side> for Alignment {
    /// The alignment towards a side.
    fn from(side: Side) -> (r: Self) {
        Alignment::from_side(side)
    }
}

impl vstd::std_specs::convert::FromSpecImpl<Side> for Alignment {
    open spec fn obeys_from_spec() -> bool {
        true
    }

    open spec fn from_spec(side: Side) -> Self {
        match side {
            Side::Left => Alignment::H(HAlignment::Left),
            Side::Top => Alignment::V(VAlignment::Top),
            Side::Right => Alignment::H(HAlignment::Right),
            Side::Bottom => Alignment::V(VAlignment::Bottom),
        }
    }
}

impl From<Side> for FixedAlignment {
    /// The fixed alignment towards a side.
    fn from(side: Side) -> (r: Self) {
        FixedAlignment::from_side(side)
    }
}

impl vstd::std_specs::convert::FromSpecImpl<Side> for FixedAlignment {
    open spec fn obeys_from_spec() -> bool {
        true
    }

    open spec fn from_spec(side: Side) -> Self {
        match side {
            Side::Left | Side::Top => FixedAlignment::Start,
            Side::Right | Side::Bottom => FixedAlignment::End,
        }
    }
}

} // verus!
