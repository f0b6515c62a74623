//! Geometric primitives used throughout layout: lengths, ratios, points,
//! sizes, sides, directions and the `auto`-or-custom wrapper.
//!
//! Lengths are held as whole numbers of the layout's smallest unit, a
//! thousandth of a point, and ratios as whole numbers of millionths, so that
//! every comparison and sum below is exact.

use vstd::prelude::*;

verus! {

/// The smallest and largest raw value of a length that the layout accepts.
pub open spec fn in_range(v: int) -> bool {
    i64::MIN <= v <= i64::MAX
}

/// The number of raw length units in a point.
pub const UNITS_PER_PT: i64 = 1000;

/// The raw value of a ratio of one.
pub const RATIO_ONE: i64 = 1_000_000;

/// An absolute length, held as a whole number of the layout's smallest unit.
#[derive(Clone, Copy, PartialEq, Eq, Structural, Hash, Debug)]
pub struct Abs(pub i64);

impl Abs {
    /// A length of the given number of points.
    pub fn pt(points: i64) -> (r: Self)
        requires
            in_range(points * UNITS_PER_PT),
        ensures
            r.0 == points * UNITS_PER_PT,
    {
        Abs(points * UNITS_PER_PT)
    }

    /// The zero length.
    pub fn zero() -> (r: Self)
        ensures
            r.0 == 0,
    {
        Abs(0)
    }

    /// A length of the given raw amount.
    pub fn raw(v: i64) -> (r: Self)
        ensures
            r.0 == v,
    {
        Abs(v)
    }

    /// The raw amount of this length.
    pub fn to_raw(self) -> (r: i64)
        ensures
            r == self.0,
    {
        self.0
    }

    /// Whether the length is zero.
    pub fn is_zero(self) -> (r: bool)
        ensures
            r == (self.0 == 0),
    {
        self.0 == 0
    }

    /// The sum of two lengths.
    pub fn plus(self, other: Self) -> (r: Self)
        requires
            in_range(self.0 + other.0),
        ensures
            r.0 == self.0 + other.0,
    {
        Abs(self.0 + other.0)
    }

    /// The difference of two lengths.
    pub fn minus(self, other: Self) -> (r: Self)
        requires
            in_range(self.0 - other.0),
        ensures
            r.0 == self.0 - other.0,
    {
        Abs(self.0 - other.0)
    }

    /// The negated length.
    pub fn neg(self) -> (r: Self)
        requires
            self.0 > i64::MIN,
        ensures
            r.0 == -self.0,
    {
        Abs(-self.0)
    }

    /// The larger of two lengths.
    pub fn max(self, other: Self) -> (r: Self)
        ensures
            r.0 == if self.0 >= other.0 { self.0 } else { other.0 },
    {
        if self.0 >= other.0 {
            self
        } else {
            other
        }
    }

    /// The smaller of two lengths.
    pub fn min(self, other: Self) -> (r: Self)
        ensures
            r.0 == if self.0 <= other.0 { self.0 } else { other.0 },
    {
        if self.0 <= other.0 {
            self
        } else {
            other
        }
    }

    /// Whether the other length fits into this one (i.e. is not larger).
    pub fn fits(self, other: Self) -> (r: bool)
        ensures
            r == (other.0 <= self.0),
    {
        other.0 <= self.0
    }
}

/// A length relative to the font size, held as a whole number of millionths
/// of the font size.
#[derive(Clone, Copy, PartialEq, Eq, Structural, Hash, Debug)]
pub struct Em(pub i64);

impl Em {
    /// The absolute length at the given font size, rounded down.
    pub fn at(self, font_size: Abs) -> (r: Abs)
        requires
            in_range(spec_scale(self.0 as int, font_size.0 as int)),
        ensures
            r.0 == spec_scale(self.0 as int, font_size.0 as int),
    {
        Ratio(self.0).of(font_size)
    }
}

/// A ratio of a whole, held as a whole number of millionths.
#[derive(Clone, Copy, PartialEq, Eq, Structural, Hash, Debug)]
pub struct Ratio(pub i64);

/// The product of a raw ratio and a raw amount, rounded down to a whole raw
/// amount.
pub open spec fn spec_scale(ratio: int, amount: int) -> int {
    (ratio * amount) / (RATIO_ONE as int)
}

impl Ratio {
    /// The ratio of one, the whole.
    pub fn one() -> (r: Self)
        ensures
            r.0 == RATIO_ONE,
    {
        Ratio(RATIO_ONE)
    }

    /// This ratio of a length, rounded down to the smallest unit.
    pub fn of(self, whole: Abs) -> (r: Abs)
        requires
            in_range(spec_scale(self.0 as int, whole.0 as int)),
        ensures
            r.0 == spec_scale(self.0 as int, whole.0 as int),
    {
        let prod: i128 = (self.0 as i128) * (whole.0 as i128);
        let q = prod.checked_div_euclid(RATIO_ONE as i128).unwrap();
        Abs(q as i64)
    }

    /// The zero ratio.
    pub fn zero() -> (r: Self)
        ensures
            r.0 == 0,
    {
        Ratio(0)
    }

    /// Whether the ratio is zero.
    pub fn is_zero(self) -> (r: bool)
        ensures
            r == (self.0 == 0),
    {
        self.0 == 0
    }
}

/// A fraction of the remaining free space, held as a whole number of
/// millionths.
#[derive(Clone, Copy, PartialEq, Eq, Structural, Hash, Debug)]
pub struct Fr(pub i64);

/// The share of `remaining` that `part` of `total` fractions get, rounded
/// down, and never negative; nothing when the total is zero.
pub open spec fn spec_share(part: int, total: int, remaining: int) -> int {
    if total == 0 {
        0
    } else {
        let v = remaining * part / total;
        if v < 0 {
            0
        } else {
            v
        }
    }
}

impl Fr {
    /// The zero fraction.
    pub fn zero() -> (r: Self)
        ensures
            r.0 == 0,
    {
        Fr(0)
    }

    /// The sum of two fractions.
    pub fn plus(self, other: Self) -> (r: Self)
        requires
            in_range(self.0 + other.0),
        ensures
            r.0 == self.0 + other.0,
    {
        Fr(self.0 + other.0)
    }

    /// This fraction's share in the remaining space.
    pub fn share(self, total: Self, remaining: Abs) -> (r: Abs)
        requires
            in_range(spec_share(self.0 as int, total.0 as int, remaining.0 as int)),
        ensures
            r.0 == spec_share(self.0 as int, total.0 as int, remaining.0 as int),
    {
        if total.0 == 0 {
            return Abs(0);
        }
        proof {
            let (a, b) = (remaining.0 as int, self.0 as int);
            assert(-0x4000_0000_0000_0000_0000_0000_0000_0000 <= a * b
                <= 0x4000_0000_0000_0000_0000_0000_0000_0000) by (nonlinear_arith)
                requires
                    i64::MIN <= a <= i64::MAX,
                    i64::MIN <= b <= i64::MAX,
            ;
            let t = total.0 as int;
            let p = a * b;
            assert(-0x4000_0000_0000_0000_0000_0000_0000_0001 <= p / t
                <= 0x4000_0000_0000_0000_0000_0000_0000_0001) by (nonlinear_arith)
                requires
                    -0x4000_0000_0000_0000_0000_0000_0000_0000 <= p
                        <= 0x4000_0000_0000_0000_0000_0000_0000_0000,
                    t != 0,
            ;
        }
        let prod: i128 = (remaining.0 as i128) * (self.0 as i128);
        let q = prod.checked_div_euclid(total.0 as i128).unwrap();
        if q < 0 {
            Abs(0)
        } else {
            Abs(q as i64)
        }
    }
}

/// A length with an absolute and a font-relative component.
#[derive(Clone, Copy, PartialEq, Eq, Structural, Hash, Debug)]
pub struct Length {
    /// The absolute part.
    pub abs: Abs,
    /// The font-relative part.
    pub em: Em,
}

impl Length {
    /// The zero length.
    pub fn zero() -> (r: Self)
        ensures
            r.abs.0 == 0,
            r.em.0 == 0,
    {
        Length { abs: Abs(0), em: Em(0) }
    }
}

/// A value that is composed of a relative and an absolute part.
#[derive(Clone, Copy, PartialEq, Eq, Structural, Hash, Debug)]
pub struct Rel<T> {
    /// The relative part.
    pub rel: Ratio,
    /// The absolute part.
    pub abs: T,
}

impl Rel<Abs> {
    /// The length this relative length resolves to, relative to `whole`.
    pub open spec fn spec_relative_to(self, whole: Abs) -> int {
        spec_scale(self.rel.0 as int, whole.0 as int) + self.abs.0
    }

    /// Resolve this relative length relative to `whole`.
    pub fn relative_to(self, whole: Abs) -> (r: Abs)
        requires
            in_range(spec_scale(self.rel.0 as int, whole.0 as int)),
            in_range(self.spec_relative_to(whole)),
        ensures
            r.0 == self.spec_relative_to(whole),
    {
        self.rel.of(whole).plus(self.abs)
    }
}

impl Length {
    /// The absolute length at the given font size.
    pub open spec fn spec_at(self, font_size: Abs) -> int {
        self.abs.0 + spec_scale(self.em.0 as int, font_size.0 as int)
    }

    /// Whether the length resolves at the font size within the range of
    /// lengths.
    pub open spec fn spec_at_fits(self, font_size: Abs) -> bool {
        in_range(spec_scale(self.em.0 as int, font_size.0 as int)) && in_range(self.spec_at(font_size))
    }

    /// Resolve the length at the given font size.
    pub fn at(self, font_size: Abs) -> (r: Abs)
        requires
            self.spec_at_fits(font_size),
        ensures
            r.0 == self.spec_at(font_size),
    {
        self.abs.plus(self.em.at(font_size))
    }
}

impl Rel<Length> {
    /// The relative length resolved at the given font size.
    pub open spec fn spec_resolve(self, font_size: Abs) -> Rel<Abs> {
        Rel { rel: self.rel, abs: Abs(self.abs.spec_at(font_size) as i64) }
    }

    /// Resolve the absolute part at the given font size.
    pub fn resolve(self, font_size: Abs) -> (r: Rel<Abs>)
        requires
            self.abs.spec_at_fits(font_size),
        ensures
            r == self.spec_resolve(font_size),
    {
        Rel { rel: self.rel, abs: self.abs.at(font_size) }
    }

    /// The zero relative length.
    pub open spec fn spec_zero() -> Rel<Length> {
        Rel { rel: Ratio(0), abs: Length { abs: Abs(0), em: Em(0) } }
    }

    /// The zero relative length.
    pub fn zero() -> (r: Self)
        ensures
            r == Rel::spec_zero(),
    {
        Rel { rel: Ratio(0), abs: Length { abs: Abs(0), em: Em(0) } }
    }
}

/// A container with a horizontal and vertical component.
#[derive(Clone, Copy, PartialEq, Eq, Structural, Hash, Debug)]
pub struct Axes<T> {
    /// The horizontal component.
    pub x: T,
    /// The vertical component.
    pub y: T,
}

impl<T> Axes<T> {
    /// Create a new instance from the two components.
    pub fn new(x: T, y: T) -> (r: Self)
        ensures
            r.x == x,
            r.y == y,
    {
        Axes { x, y }
    }
}

impl<T> Axes<T> {
    /// The component for the given axis.
    pub open spec fn spec_get(self, axis: Axis) -> T {
        match axis {
            Axis::X => self.x,
            Axis::Y => self.y,
        }
    }

    /// The value with the component for the given axis replaced.
    pub open spec fn spec_with(self, axis: Axis, v: T) -> Axes<T> {
        match axis {
            Axis::X => Axes { x: v, y: self.y },
            Axis::Y => Axes { x: self.x, y: v },
        }
    }

    /// Return the component for the specified axis.
    pub fn get(self, axis: Axis) -> (r: T)
        ensures
            r == self.spec_get(axis),
    {
        match axis {
            Axis::X => self.x,
            Axis::Y => self.y,
        }
    }

    /// Set the component for the specified axis.
    pub fn set(&mut self, axis: Axis, v: T)
        ensures
            *final(self) == old(self).spec_with(axis, v),
    {
        match axis {
            Axis::X => self.x = v,
            Axis::Y => self.y = v,
        }
    }
}

impl Axes<bool> {
    /// For each axis, the component of `t` where this is `true` and of `f`
    /// where it is `false`.
    pub fn select(self, t: Axes<Abs>, f: Axes<Abs>) -> (r: Axes<Abs>)
        ensures
            r.x == if self.x { t.x } else { f.x },
            r.y == if self.y { t.y } else { f.y },
    {
        Axes { x: if self.x { t.x } else { f.x }, y: if self.y { t.y } else { f.y } }
    }
}

/// A size in 2D.
pub type Size = Axes<Abs>;

impl Axes<Abs> {
    /// The zero size.
    pub fn zero() -> (r: Self)
        ensures
            r.x.0 == 0,
            r.y.0 == 0,
    {
        Axes { x: Abs(0), y: Abs(0) }
    }

    /// Whether the other size fits into this one (smaller width and height).
    pub fn fits(self, other: Self) -> (r: bool)
        ensures
            r == (other.x.0 <= self.x.0 && other.y.0 <= self.y.0),
    {
        self.x.fits(other.x) && self.y.fits(other.y)
    }

    /// Convert to a point.
    pub fn to_point(self) -> (r: Point)
        ensures
            r.x == self.x,
            r.y == self.y,
    {
        Point { x: self.x, y: self.y }
    }

    /// The sum of two sizes.
    pub fn plus(self, other: Self) -> (r: Self)
        requires
            in_range(self.x.0 + other.x.0),
            in_range(self.y.0 + other.y.0),
        ensures
            r.x.0 == self.x.0 + other.x.0,
            r.y.0 == self.y.0 + other.y.0,
    {
        Axes { x: self.x.plus(other.x), y: self.y.plus(other.y) }
    }

    /// The difference of two sizes.
    pub fn minus(self, other: Self) -> (r: Self)
        requires
            in_range(self.x.0 - other.x.0),
            in_range(self.y.0 - other.y.0),
        ensures
            r.x.0 == self.x.0 - other.x.0,
            r.y.0 == self.y.0 - other.y.0,
    {
        Axes { x: self.x.minus(other.x), y: self.y.minus(other.y) }
    }

    /// The negated size.
    pub fn neg(self) -> (r: Self)
        requires
            self.x.0 > i64::MIN,
            self.y.0 > i64::MIN,
        ensures
            r.x.0 == -self.x.0,
            r.y.0 == -self.y.0,
    {
        Axes { x: self.x.neg(), y: self.y.neg() }
    }

    /// The componentwise minimum of two sizes.
    pub fn min(self, other: Self) -> (r: Self)
        ensures
            r.x == if self.x.0 <= other.x.0 { self.x } else { other.x },
            r.y == if self.y.0 <= other.y.0 { self.y } else { other.y },
    {
        Axes { x: self.x.min(other.x), y: self.y.min(other.y) }
    }

    /// Whether two sizes are equal.
    pub fn same(self, other: Self) -> (r: bool)
        ensures
            r == (self == other),
    {
        self.x.0 == other.x.0 && self.y.0 == other.y.0
    }
}

/// A point in 2D.
#[derive(Clone, Copy, PartialEq, Eq, Structural, Hash, Debug)]
pub struct Point {
    /// The x coordinate.
    pub x: Abs,
    /// The y coordinate.
    pub y: Abs,
}

impl Point {
    /// The origin point.
    pub fn zero() -> (r: Self)
        ensures
            r.x.0 == 0,
            r.y.0 == 0,
    {
        Point { x: Abs(0), y: Abs(0) }
    }

    /// Create a new point from x and y coordinates.
    pub fn new(x: Abs, y: Abs) -> (r: Self)
        ensures
            r.x == x,
            r.y == y,
    {
        Point { x, y }
    }

    /// Create an instance with two equal components.
    pub fn splat(v: Abs) -> (r: Self)
        ensures
            r.x == v,
            r.y == v,
    {
        Point { x: v, y: v }
    }

    /// Create a new point with y set to zero.
    pub fn with_x(x: Abs) -> (r: Self)
        ensures
            r.x == x,
            r.y.0 == 0,
    {
        Point { x, y: Abs(0) }
    }

    /// Create a new point with x set to zero.
    pub fn with_y(y: Abs) -> (r: Self)
        ensures
            r.x.0 == 0,
            r.y == y,
    {
        Point { x: Abs(0), y }
    }

    /// Whether both coordinates are zero.
    pub fn is_zero(self) -> (r: bool)
        ensures
            r == (self.x.0 == 0 && self.y.0 == 0),
    {
        self.x.0 == 0 && self.y.0 == 0
    }

    /// The point moved by the given offset.
    pub fn plus(self, other: Self) -> (r: Self)
        requires
            in_range(self.x.0 + other.x.0),
            in_range(self.y.0 + other.y.0),
        ensures
            r.x.0 == self.x.0 + other.x.0,
            r.y.0 == self.y.0 + other.y.0,
    {
        Point { x: Abs(self.x.0 + other.x.0), y: Abs(self.y.0 + other.y.0) }
    }
}

/// The four sides of objects.
#[derive(Clone, Copy, PartialEq, Eq, Structural, Hash, Debug)]
pub enum Side {
    /// The left side.
    Left,
    /// The top side.
    Top,
    /// The right side.
    Right,
    /// The bottom side.
    Bottom,
}

/// The two layouting axes.
#[derive(Clone, Copy, PartialEq, Eq, Structural, Hash, Debug)]
pub enum Axis {
    /// The horizontal axis.
    X,
    /// The vertical axis.
    Y,
}

/// The four directions into which content can be laid out.
#[derive(Clone, Copy, PartialEq, Eq, Structural, Hash, Debug)]
pub enum Dir {
    /// Left to right.
    LTR,
    /// Right to left.
    RTL,
    /// Top to bottom.
    TTB,
    /// Bottom to top.
    BTT,
}

impl Axis {
    /// The other axis.
    pub open spec fn spec_other(self) -> Axis {
        match self {
            Axis::X => Axis::Y,
            Axis::Y => Axis::X,
        }
    }

    /// The other axis.
    pub fn other(self) -> (r: Axis)
        ensures
            r == self.spec_other(),
    {
        match self {
            Axis::X => Axis::Y,
            Axis::Y => Axis::X,
        }
    }
}

impl Dir {
    /// The axis this direction belongs to.
    pub open spec fn spec_axis(self) -> Axis {
        match self {
            Dir::LTR | Dir::RTL => Axis::X,
            Dir::TTB | Dir::BTT => Axis::Y,
        }
    }

    /// The axis this direction belongs to.
    pub fn axis(self) -> (r: Axis)
        ensures
            r == self.spec_axis(),
    {
        match self {
            Dir::LTR | Dir::RTL => Axis::X,
            Dir::TTB | Dir::BTT => Axis::Y,
        }
    }

    /// The side this direction starts at.
    pub open spec fn spec_start(self) -> Side {
        match self {
            Dir::LTR => Side::Left,
            Dir::RTL => Side::Right,
            Dir::TTB => Side::Top,
            Dir::BTT => Side::Bottom,
        }
    }

    /// The side this direction starts at.
    pub fn start(self) -> (r: Side)
        ensures
            r == self.spec_start(),
    {
        match self {
            Dir::LTR => Side::Left,
            Dir::RTL => Side::Right,
            Dir::TTB => Side::Top,
            Dir::BTT => Side::Bottom,
        }
    }

    /// Whether this direction points into the positive coordinate direction.
    pub open spec fn spec_is_positive(self) -> bool {
        self == Dir::LTR || self == Dir::TTB
    }

    /// Whether this direction points into the positive coordinate direction.
    pub fn is_positive(self) -> (r: bool)
        ensures
            r == self.spec_is_positive(),
    {
        match self {
            Dir::LTR | Dir::TTB => true,
            Dir::RTL | Dir::BTT => false,
        }
    }
}

/// A container with left, top, right and bottom components.
#[derive(Clone, Copy, PartialEq, Eq, Structural, Hash, Debug)]
pub struct Sides<T> {
    /// The value for the left side.
    pub left: T,
    /// The value for the top side.
    pub top: T,
    /// The value for the right side.
    pub right: T,
    /// The value for the bottom side.
    pub bottom: T,
}

impl Rel<Abs> {
    /// The sum of two relative lengths.
    pub fn plus(self, other: Self) -> (r: Self)
        requires
            in_range(self.rel.0 + other.rel.0),
            in_range(self.abs.0 + other.abs.0),
        ensures
            r.rel.0 == self.rel.0 + other.rel.0,
            r.abs.0 == self.abs.0 + other.abs.0,
    {
        Rel { rel: Ratio(self.rel.0 + other.rel.0), abs: self.abs.plus(other.abs) }
    }
}

impl Axes<Rel<Abs>> {
    /// Whether both components can be resolved relative to `size` without
    /// leaving the range of lengths.
    pub open spec fn spec_resolvable(self, size: Size) -> bool {
        &&& in_range(spec_scale(self.x.rel.0 as int, size.x.0 as int))
        &&& in_range(self.x.spec_relative_to(size.x))
        &&& in_range(spec_scale(self.y.rel.0 as int, size.y.0 as int))
        &&& in_range(self.y.spec_relative_to(size.y))
    }

    /// Resolve the components relative to a size: `x` relative to its width,
    /// `y` to its height.
    pub fn relative_to(self, size: Size) -> (r: Size)
        requires
            self.spec_resolvable(size),
        ensures
            r.x.0 == self.x.spec_relative_to(size.x),
            r.y.0 == self.y.spec_relative_to(size.y),
    {
        Axes { x: self.x.relative_to(size.x), y: self.y.relative_to(size.y) }
    }
}

impl Sides<Rel<Abs>> {
    /// Whether all sides are zero.
    pub open spec fn spec_is_zero(self) -> bool {
        &&& self.left.rel.0 == 0 && self.left.abs.0 == 0
        &&& self.top.rel.0 == 0 && self.top.abs.0 == 0
        &&& self.right.rel.0 == 0 && self.right.abs.0 == 0
        &&& self.bottom.rel.0 == 0 && self.bottom.abs.0 == 0
    }

    /// Whether all sides are zero.
    pub fn is_zero(&self) -> (r: bool)
        ensures
            r == self.spec_is_zero(),
    {
        self.left.rel.0 == 0 && self.left.abs.0 == 0 && self.top.rel.0 == 0 && self.top.abs.0 == 0
            && self.right.rel.0 == 0 && self.right.abs.0 == 0 && self.bottom.rel.0 == 0
            && self.bottom.abs.0 == 0
    }

    /// Whether the sides can be summed up by axis.
    pub open spec fn spec_summable(self) -> bool {
        &&& in_range(self.left.rel.0 + self.right.rel.0)
        &&& in_range(self.left.abs.0 + self.right.abs.0)
        &&& in_range(self.top.rel.0 + self.bottom.rel.0)
        &&& in_range(self.top.abs.0 + self.bottom.abs.0)
    }

    /// The sides summed up by axis.
    pub open spec fn spec_sum_by_axis(self) -> Axes<Rel<Abs>> {
        Axes {
            x: Rel {
                rel: Ratio((self.left.rel.0 + self.right.rel.0) as i64),
                abs: Abs((self.left.abs.0 + self.right.abs.0) as i64),
            },
            y: Rel {
                rel: Ratio((self.top.rel.0 + self.bottom.rel.0) as i64),
                abs: Abs((self.top.abs.0 + self.bottom.abs.0) as i64),
            },
        }
    }

    /// Sums up `left` and `right` into `x`, and `top` and `bottom` into `y`.
    pub fn sum_by_axis(&self) -> (r: Axes<Rel<Abs>>)
        requires
            self.spec_summable(),
        ensures
            r == self.spec_sum_by_axis(),
    {
        Axes { x: self.left.plus(self.right), y: self.top.plus(self.bottom) }
    }

    /// Whether every side can be resolved relative to `size` without leaving
    /// the range of lengths.
    pub open spec fn spec_resolvable(self, size: Size) -> bool {
        &&& in_range(spec_scale(self.left.rel.0 as int, size.x.0 as int))
        &&& in_range(self.left.spec_relative_to(size.x))
        &&& in_range(spec_scale(self.right.rel.0 as int, size.x.0 as int))
        &&& in_range(self.right.spec_relative_to(size.x))
        &&& in_range(spec_scale(self.top.rel.0 as int, size.y.0 as int))
        &&& in_range(self.top.spec_relative_to(size.y))
        &&& in_range(spec_scale(self.bottom.rel.0 as int, size.y.0 as int))
        &&& in_range(self.bottom.spec_relative_to(size.y))
    }

    /// Resolve the sides relative to a size: the left and right sides
    /// relative to its width, the top and bottom sides to its height.
    pub fn relative_to(&self, size: Size) -> (r: Sides<Abs>)
        requires
            self.spec_resolvable(size),
        ensures
            r.left.0 == self.left.spec_relative_to(size.x),
            r.top.0 == self.top.spec_relative_to(size.y),
            r.right.0 == self.right.spec_relative_to(size.x),
            r.bottom.0 == self.bottom.spec_relative_to(size.y),
    {
        Sides {
            left: self.left.relative_to(size.x),
            top: self.top.relative_to(size.y),
            right: self.right.relative_to(size.x),
            bottom: self.bottom.relative_to(size.y),
        }
    }
}

impl Sides<Abs> {
    /// Sums up `left` and `right` into `x`, and `top` and `bottom` into `y`.
    pub fn sum_by_axis(self) -> (r: Size)
        requires
            in_range(self.left.0 + self.right.0),
            in_range(self.top.0 + self.bottom.0),
        ensures
            r.x.0 == self.left.0 + self.right.0,
            r.y.0 == self.top.0 + self.bottom.0,
    {
        Axes { x: self.left.plus(self.right), y: self.top.plus(self.bottom) }
    }
}

/// A value that can be automatically determined.
#[derive(Clone, Copy, PartialEq, Eq, Structural, Hash, Debug)]
pub enum Smart<T> {
    /// The value should be determined smartly based on the circumstances.
    Auto,
    /// A specific value.
    Custom(T),
}

/// A count that is never zero.
#[derive(Clone, Copy, PartialEq, Eq, Hash, Debug)]
pub struct NonZeroUsize(usize);

impl NonZeroUsize {
    /// The count's invariant: it is not zero.
    #[verifier::type_invariant]
    spec fn inv(self) -> bool {
        self.0 != 0
    }

    /// The count.
    pub closed spec fn spec_get(self) -> usize {
        self.0
    }

    /// The count one.
    pub closed spec fn spec_one() -> Self {
        NonZeroUsize(1)
    }

    /// A count of one is the count one.
    pub proof fn lemma_one_unique(n: Self)
        requires
            n.spec_get() == 1,
        ensures
            n == Self::spec_one(),
    {
    }

    /// The count one.
    pub fn one() -> (r: Self)
        ensures
            r.spec_get() == 1,
            r == Self::spec_one(),
    {
        NonZeroUsize(1)
    }

    /// The count `n`, if it is not zero.
    pub fn new(n: usize) -> (r: Option<Self>)
        ensures
            r is Some <==> n != 0,
            r matches Some(v) ==> v.spec_get() == n,
    {
        if n != 0 {
            Some(NonZeroUsize(n))
        } else {
            None
        }
    }

    /// The count.
    pub fn get(self) -> (r: usize)
        ensures
            r == self.spec_get(),
            r >= 1,
    {
        proof {
            use_type_invariant(&self);
        }
        self.0
    }
}

} // verus!
