//! Values for the four corners of a rectangle.

use vstd::prelude::*;

use crate::geom::Side;
use vstd::std_specs::cmp::PartialEqSpec;

verus! {

/// A container with components for the four corners of a rectangle.
#[derive(Clone, Copy, PartialEq, Eq, Hash, Debug)]
pub struct Corners<T> {
    /// The value for the top left corner.
    pub top_left: T,
    /// The value for the top right corner.
    pub top_right: T,
    /// The value for the bottom right corner.
    pub bottom_right: T,
    /// The value for the bottom left corner.
    pub bottom_left: T,
}

impl<T> Corners<T> {
    /// The component at a corner.
    pub open spec fn spec_get(self, corner: Corner) -> T {
        match corner {
            Corner::TopLeft => self.top_left,
            Corner::TopRight => self.top_right,
            Corner::BottomRight => self.bottom_right,
            Corner::BottomLeft => self.bottom_left,
        }
    }

    /// Create a new instance from the four components.
    pub fn new(top_left: T, top_right: T, bottom_right: T, bottom_left: T) -> (r: Self)
        ensures
            r.top_left == top_left,
            r.top_right == top_right,
            r.bottom_right == bottom_right,
            r.bottom_left == bottom_left,
    {
        Corners { top_left, top_right, bottom_right, bottom_left }
    }

    /// Create an instance with four equal components.
    pub fn splat(value: T) -> (r: Self) where T: Clone
        ensures
            cloned(value, r.top_left),
            cloned(value, r.top_right),
            cloned(value, r.bottom_right),
            r.bottom_left == value,
    {
        Corners {
            top_left: value.clone(),
            top_right: value.clone(),
            bottom_right: value.clone(),
            bottom_left: value,
        }
    }

    /// Map the individual fields with `f`, from the top left corner clockwise.
    pub fn map<F, U>(self, f: F) -> (r: Corners<U>) where F: Fn(T) -> U
        requires
            f.requires((self.top_left,)),
            f.requires((self.top_right,)),
            f.requires((self.bottom_right,)),
            f.requires((self.bottom_left,)),
        ensures
            f.ensures((self.top_left,), r.top_left),
            f.ensures((self.top_right,), r.top_right),
            f.ensures((self.bottom_right,), r.bottom_right),
            f.ensures((self.bottom_left,), r.bottom_left),
    {
        let top_left = f(self.top_left);
        let top_right = f(self.top_right);
        let bottom_right = f(self.bottom_right);
        let bottom_left = f(self.bottom_left);
        Corners { top_left, top_right, bottom_right, bottom_left }
    }

    /// Zip two instances into one.
    pub fn zip<U>(self, other: Corners<U>) -> (r: Corners<(T, U)>)
        ensures
            r.top_left == (self.top_left, other.top_left),
            r.top_right == (self.top_right, other.top_right),
            r.bottom_right == (self.bottom_right, other.bottom_right),
            r.bottom_left == (self.bottom_left, other.bottom_left),
    {
        Corners {
            top_left: (self.top_left, other.top_left),
            top_right: (self.top_right, other.top_right),
            bottom_right: (self.bottom_right, other.bottom_right),
            bottom_left: (self.bottom_left, other.bottom_left),
        }
    }

    /// The corners' components, starting with the top left corner, clockwise.
    pub fn iter(&self) -> (r: Vec<&T>)
        ensures
            r@ == seq![&self.top_left, &self.top_right, &self.bottom_right, &self.bottom_left],
    {
        let mut v: Vec<&T> = Vec::new();
        v.push(&self.top_left);
        v.push(&self.top_right);
        v.push(&self.bottom_right);
        v.push(&self.bottom_left);
        v
    }

    /// Whether all corners are equal.
    pub fn is_uniform(&self) -> (r: bool) where T: PartialEq
        ensures
            T::obeys_eq_spec() ==> r == (self.top_left.eq_spec(&self.top_right)
                && self.top_right.eq_spec(&self.bottom_right)
                && self.bottom_right.eq_spec(&self.bottom_left)),
    {
        self.top_left == self.top_right && self.top_right == self.bottom_right
            && self.bottom_right == self.bottom_left
    }

    /// The component at a corner.
    pub fn get_ref(&self, corner: Corner) -> (r: &T)
        ensures
            *r == self.spec_get(corner),
    {
        match corner {
            Corner::TopLeft => &self.top_left,
            Corner::TopRight => &self.top_right,
            Corner::BottomRight => &self.bottom_right,
            Corner::BottomLeft => &self.bottom_left,
        }
    }

    /// The component at a corner, mutably: what is written through it
    /// becomes the component at that corner, and the others stay.
    pub fn get_mut(&mut self, corner: Corner) -> (r: &mut T)
        ensures
            *r == old(self).spec_get(corner),
            final(self).spec_get(corner) == *final(r),
            forall|c: Corner| c != corner ==> final(self).spec_get(c) == old(self).spec_get(c),
    {
        match corner {
            Corner::TopLeft => &mut self.top_left,
            Corner::TopRight => &mut self.top_right,
            Corner::BottomRight => &mut self.bottom_right,
            Corner::BottomLeft => &mut self.bottom_left,
        }
    }

    /// Replaces the component at a corner, leaving the others unchanged.
    pub fn set(&mut self, corner: Corner, value: T)
        ensures
            final(self).spec_get(corner) == value,
            forall|c: Corner| c != corner ==> final(self).spec_get(c) == old(self).spec_get(c),
    {
        match corner {
            Corner::TopLeft => self.top_left = value,
            Corner::TopRight => self.top_right = value,
            Corner::BottomRight => self.bottom_right = value,
            Corner::BottomLeft => self.bottom_left = value,
        }
    }
}

impl<T: Default> Corners<Option<T>> {
    /// Unwrap-or-default the individual corners.
    pub fn unwrap_or_default(self) -> (r: Corners<T>)
        ensures
            forall|c: Corner|
                match #[trigger] self.spec_get(c) {
                    Some(v) => r.spec_get(c) == v,
                    None => T::default.ensures((), r.spec_get(c)),
                },
    {
        let r = Corners {
            top_left: self.top_left.unwrap_or_default(),
            top_right: self.top_right.unwrap_or_default(),
            bottom_right: self.bottom_right.unwrap_or_default(),
            bottom_left: self.bottom_left.unwrap_or_default(),
        };
        assert forall|c: Corner|
            match #[trigger] self.spec_get(c) {
                Some(v) => r.spec_get(c) == v,
                None => T::default.ensures((), r.spec_get(c)),
            } by {
            match c {
                Corner::TopLeft => {},
                Corner::TopRight => {},
                Corner::BottomRight => {},
                Corner::BottomLeft => {},
            }
        }
        r
    }
}

/// The four corners of a rectangle.
#[derive(Clone, Copy, PartialEq, Eq, Structural, Hash, Debug)]
pub enum Corner {
    /// The top left corner.
    TopLeft,
    /// The top right corner.
    TopRight,
    /// The bottom right corner.
    BottomRight,
    /// The bottom left corner.
    BottomLeft,
}

impl Corner {
    /// The opposite corner.
    pub open spec fn spec_inv(self) -> Corner {
        match self {
            Corner::TopLeft => Corner::BottomRight,
            Corner::TopRight => Corner::BottomLeft,
            Corner::BottomRight => Corner::TopLeft,
            Corner::BottomLeft => Corner::TopRight,
        }
    }

    /// The next corner, clockwise.
    pub open spec fn spec_next_cw(self) -> Corner {
        match self {
            Corner::TopLeft => Corner::TopRight,
            Corner::TopRight => Corner::BottomRight,
            Corner::BottomRight => Corner::BottomLeft,
            Corner::BottomLeft => Corner::TopLeft,
        }
    }

    /// The next corner, counter-clockwise.
    pub open spec fn spec_next_ccw(self) -> Corner {
        match self {
            Corner::TopLeft => Corner::BottomLeft,
            Corner::TopRight => Corner::TopLeft,
            Corner::BottomRight => Corner::TopRight,
            Corner::BottomLeft => Corner::BottomRight,
        }
    }

    /// The next side, clockwise.
    pub open spec fn spec_side_cw(self) -> Side {
        match self {
            Corner::TopLeft => Side::Top,
            Corner::TopRight => Side::Right,
            Corner::BottomRight => Side::Bottom,
            Corner::BottomLeft => Side::Left,
        }
    }

    /// The next side, counter-clockwise.
    pub open spec fn spec_side_ccw(self) -> Side {
        match self {
            Corner::TopLeft => Side::Left,
            Corner::TopRight => Side::Top,
            Corner::BottomRight => Side::Right,
            Corner::BottomLeft => Side::Bottom,
        }
    }

    /// The opposite corner.
    pub fn inv(self) -> (r: Self)
        ensures
            r == self.spec_inv(),
    {
        match self {
            Corner::TopLeft => Corner::BottomRight,
            Corner::TopRight => Corner::BottomLeft,
            Corner::BottomRight => Corner::TopLeft,
            Corner::BottomLeft => Corner::TopRight,
        }
    }

    /// The next corner, clockwise.
    pub fn next_cw(self) -> (r: Self)
        ensures
            r == self.spec_next_cw(),
    {
        match self {
            Corner::TopLeft => Corner::TopRight,
            Corner::TopRight => Corner::BottomRight,
            Corner::BottomRight => Corner::BottomLeft,
            Corner::BottomLeft => Corner::TopLeft,
        }
    }

    /// The next corner, counter-clockwise.
    pub fn next_ccw(self) -> (r: Self)
        ensures
            r == self.spec_next_ccw(),
    {
        match self {
            Corner::TopLeft => Corner::BottomLeft,
            Corner::TopRight => Corner::TopLeft,
            Corner::BottomRight => Corner::TopRight,
            Corner::BottomLeft => Corner::BottomRight,
        }
    }

    /// The next side, clockwise.
    pub fn side_cw(self) -> (r: Side)
        ensures
            r == self.spec_side_cw(),
    {
        match self {
            Corner::TopLeft => Side::Top,
            Corner::TopRight => Side::Right,
            Corner::BottomRight => Side::Bottom,
            Corner::BottomLeft => Side::Left,
        }
    }

    /// The next side, counter-clockwise.
    pub fn side_ccw(self) -> (r: Side)
        ensures
            r == self.spec_side_ccw(),
    {
        match self {
            Corner::TopLeft => Side::Left,
            Corner::TopRight => Side::Top,
            Corner::BottomRight => Side::Right,
            Corner::BottomLeft => Side::Bottom,
        }
    }
}

/// The opposite of the opposite corner is the corner itself, and it is two
/// clockwise steps away.
pub proof fn lemma_corner_inv(c: Corner)
    ensures
        c.spec_inv().spec_inv() == c,
        c.spec_inv() == c.spec_next_cw().spec_next_cw(),
{
}

/// A clockwise and a counter-clockwise step cancel each other, and four steps
/// in one direction go all the way round.
pub proof fn lemma_corner_rotation(c: Corner)
    ensures
        c.spec_next_cw().spec_next_ccw() == c,
        c.spec_next_ccw().spec_next_cw() == c,
        c.spec_next_cw().spec_next_cw().spec_next_cw().spec_next_cw() == c,
{
}

/// The side clockwise of a corner is the side counter-clockwise of the next
/// corner clockwise.
pub proof fn lemma_corner_sides(c: Corner)
    ensures
        c.spec_side_cw() == c.spec_next_cw().spec_side_ccw(),
        c.spec_side_ccw() == c.spec_next_ccw().spec_side_cw(),
{
}

} // verus!
