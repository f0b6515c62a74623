//! Paints and strokes, as far as layout combines them.

use vstd::prelude::*;

use crate::content::Path;
use crate::geom::{Abs, Point, Ratio, Size, Smart};

verus! {

/// A color with 8-bit red, green, blue and alpha channels.
#[derive(Clone, Copy, PartialEq, Eq, Structural, Hash, Debug)]
pub struct Color {
    /// The red channel.
    pub r: u8,
    /// The green channel.
    pub g: u8,
    /// The blue channel.
    pub b: u8,
    /// The alpha channel; 255 is opaque.
    pub a: u8,
}

impl Color {
    /// An opaque color from its red, green and blue channels.
    pub fn rgb(r: u8, g: u8, b: u8) -> (c: Self)
        ensures
            c == (Color { r, g, b, a: 255 }),
    {
        Color { r, g, b, a: 255 }
    }

    /// The teal of the default palette.
    pub fn teal() -> (c: Self)
        ensures
            c == (Color { r: 0x39, g: 0xcc, b: 0xcc, a: 255 }),
    {
        Color::rgb(0x39, 0xcc, 0xcc)
    }

    /// Opaque black.
    pub fn black() -> (c: Self)
        ensures
            c == (Color { r: 0, g: 0, b: 0, a: 255 }),
    {
        Color::rgb(0, 0, 0)
    }

    /// The red of the default palette.
    pub fn red() -> (c: Self)
        ensures
            c == (Color { r: 0xff, g: 0x41, b: 0x36, a: 255 }),
    {
        Color::rgb(0xff, 0x41, 0x36)
    }

    /// The green of the default palette.
    pub fn green() -> (c: Self)
        ensures
            c == (Color { r: 0x2e, g: 0xcc, b: 0x40, a: 255 }),
    {
        Color::rgb(0x2e, 0xcc, 0x40)
    }

    /// This color with another alpha channel.
    pub fn with_alpha(self, a: u8) -> (c: Self)
        ensures
            c == (Color { a, ..self }),
    {
        Color { a, ..self }
    }
}

/// How a shape or a stroke is painted.
#[derive(Clone, Copy, PartialEq, Eq, Structural, Hash, Debug)]
pub enum Paint {
    /// A solid color.
    Solid(Color),
    /// A handle to a gradient managed by the engine.
    Gradient(u64),
    /// A handle to a pattern managed by the engine.
    Pattern(u64),
}

/// How to cap the ends of a stroke.
#[derive(Clone, Copy, PartialEq, Eq, Structural, Hash, Debug)]
pub enum LineCap {
    /// Square stroke cap with the edge at the stroke's end point.
    Butt,
    /// Circular stroke cap centered at the stroke's end point.
    Round,
    /// Square stroke cap centered at the stroke's end point.
    Square,
}

/// How to join two segments of a stroke.
#[derive(Clone, Copy, PartialEq, Eq, Structural, Hash, Debug)]
pub enum LineJoin {
    /// Segments are joined with sharp edges.
    Miter,
    /// Segments are joined with rounded edges.
    Round,
    /// Segments are joined with a bevel.
    Bevel,
}

/// A handle to a dash pattern managed by the engine.
#[derive(Clone, Copy, PartialEq, Eq, Structural, Hash, Debug)]
pub struct DashPattern(pub u64);

/// Defines how to draw a line; every unset property is inherited when strokes
/// are folded.
#[derive(Clone, Copy, PartialEq, Eq, Structural, Hash, Debug)]
pub struct Stroke {
    /// The stroke's paint.
    pub paint: Smart<Paint>,
    /// The stroke's thickness.
    pub thickness: Smart<Abs>,
    /// The stroke's line cap.
    pub cap: Smart<LineCap>,
    /// The stroke's line join.
    pub join: Smart<LineJoin>,
    /// The stroke's line dash pattern.
    pub dash: Smart<Option<DashPattern>>,
    /// The miter limit.
    pub miter_limit: Smart<Ratio>,
}

/// A stroke with every property fixed.
#[derive(Clone, Copy, PartialEq, Eq, Structural, Hash, Debug)]
pub struct FixedStroke {
    /// The stroke's paint.
    pub paint: Paint,
    /// The stroke's thickness.
    pub thickness: Abs,
    /// The stroke's line cap.
    pub cap: LineCap,
    /// The stroke's line join.
    pub join: LineJoin,
    /// The stroke's line dash pattern.
    pub dash: Option<DashPattern>,
    /// The miter limit.
    pub miter_limit: Ratio,
}

impl FixedStroke {
    /// A stroke of the given paint and thickness, with butt caps, miter
    /// joins, no dashes and a miter limit of four.
    pub open spec fn spec_from_pair(paint: Paint, thickness: Abs) -> FixedStroke {
        FixedStroke {
            paint,
            thickness,
            cap: LineCap::Butt,
            join: LineJoin::Miter,
            dash: None,
            miter_limit: Ratio(4_000_000),
        }
    }

    /// A stroke of the given paint and thickness, with butt caps, miter
    /// joins, no dashes and a miter limit of four.
    pub fn from_pair(paint: Paint, thickness: Abs) -> (s: Self)
        ensures
            s == FixedStroke::spec_from_pair(paint, thickness),
    {
        FixedStroke {
            paint,
            thickness,
            cap: LineCap::Butt,
            join: LineJoin::Miter,
            dash: None,
            miter_limit: Ratio(4_000_000),
        }
    }
}

/// A geometric shape's outline.
#[derive(Clone, Copy, PartialEq, Eq, Structural, Hash, Debug)]
pub enum Geometry {
    /// A line to a point, relative to its position.
    Line(Point),
    /// A rectangle with its origin in the top-left corner.
    Rect(Size),
    /// An ellipse inscribed in a box of the given size, with the box's origin
    /// in the top-left corner.
    Ellipse(Size),
    /// A handle to a curve path managed by the engine.
    Path(Path),
}

impl Geometry {
    /// The geometry filled, without a stroke.
    pub open spec fn spec_filled(self, fill: Paint) -> Shape {
        Shape { geometry: self, fill: Some(fill), stroke: None }
    }

    /// The geometry stroked, without a fill.
    pub open spec fn spec_stroked(self, stroke: FixedStroke) -> Shape {
        Shape { geometry: self, fill: None, stroke: Some(stroke) }
    }

    /// Fill the geometry without a stroke.
    pub fn filled(self, fill: Paint) -> (s: Shape)
        ensures
            s == self.spec_filled(fill),
    {
        Shape { geometry: self, fill: Some(fill), stroke: None }
    }

    /// Stroke the geometry without a fill.
    pub fn stroked(self, stroke: FixedStroke) -> (s: Shape)
        ensures
            s == self.spec_stroked(stroke),
    {
        Shape { geometry: self, fill: None, stroke: Some(stroke) }
    }
}

/// A geometry with an optional fill and stroke.
#[derive(Clone, Copy, PartialEq, Eq, Structural, Hash, Debug)]
pub struct Shape {
    /// The shape's outline.
    pub geometry: Geometry,
    /// The shape's fill.
    pub fill: Option<Paint>,
    /// The shape's stroke.
    pub stroke: Option<FixedStroke>,
}

/// An ellipse of the given size, with its origin in the top-left corner of
/// its bounding box.
pub fn ellipse(size: Size, fill: Option<Paint>, stroke: Option<FixedStroke>) -> (s: Shape)
    ensures
        s == (Shape { geometry: Geometry::Ellipse(size), fill, stroke }),
{
    Shape { geometry: Geometry::Ellipse(size), fill, stroke }
}

/// The value of an inner property if it is set, else the outer one.
pub open spec fn spec_smart_or<T>(inner: Smart<T>, outer: Smart<T>) -> Smart<T> {
    match inner {
        Smart::Custom(v) => Smart::Custom(v),
        Smart::Auto => outer,
    }
}

/// The value of an inner property if it is set, else the outer one.
pub fn smart_or<T>(inner: Smart<T>, outer: Smart<T>) -> (r: Smart<T>)
    ensures
        r == spec_smart_or(inner, outer),
{
    match inner {
        Smart::Custom(v) => Smart::Custom(v),
        Smart::Auto => outer,
    }
}

impl Stroke {
    /// The fixed stroke in which every unset property takes its default: a
    /// black paint, a thickness of one point, butt caps, miter joins, no
    /// dashes and a miter limit of four.
    pub open spec fn spec_unwrap_or_default(self) -> FixedStroke {
        FixedStroke {
            paint: match self.paint {
                Smart::Custom(p) => p,
                Smart::Auto => Paint::Solid(Color { r: 0, g: 0, b: 0, a: 255 }),
            },
            thickness: match self.thickness {
                Smart::Custom(t) => t,
                Smart::Auto => Abs(1000),
            },
            cap: match self.cap {
                Smart::Custom(c) => c,
                Smart::Auto => LineCap::Butt,
            },
            join: match self.join {
                Smart::Custom(j) => j,
                Smart::Auto => LineJoin::Miter,
            },
            dash: match self.dash {
                Smart::Custom(d) => d,
                Smart::Auto => None,
            },
            miter_limit: match self.miter_limit {
                Smart::Custom(m) => m,
                Smart::Auto => Ratio(4_000_000),
            },
        }
    }

    /// The fixed stroke in which every unset property takes its default: a
    /// black paint, a thickness of one point, butt caps, miter joins, no
    /// dashes and a miter limit of four.
    pub fn unwrap_or_default(self) -> (r: FixedStroke)
        ensures
            r == self.spec_unwrap_or_default(),
    {
        FixedStroke {
            paint: match self.paint {
                Smart::Custom(p) => p,
                Smart::Auto => Paint::Solid(Color::black()),
            },
            thickness: match self.thickness {
                Smart::Custom(t) => t,
                Smart::Auto => Abs::pt(1),
            },
            cap: match self.cap {
                Smart::Custom(c) => c,
                Smart::Auto => LineCap::Butt,
            },
            join: match self.join {
                Smart::Custom(j) => j,
                Smart::Auto => LineJoin::Miter,
            },
            dash: match self.dash {
                Smart::Custom(d) => d,
                Smart::Auto => None,
            },
            miter_limit: match self.miter_limit {
                Smart::Custom(m) => m,
                Smart::Auto => Ratio(4_000_000),
            },
        }
    }

    /// The stroke with every property unset.
    pub fn default() -> (r: Stroke)
        ensures
            r == Stroke::spec_default(),
    {
        Stroke {
            paint: Smart::Auto,
            thickness: Smart::Auto,
            cap: Smart::Auto,
            join: Smart::Auto,
            dash: Smart::Auto,
            miter_limit: Smart::Auto,
        }
    }

    /// The stroke with every property unset.
    pub open spec fn spec_default() -> Stroke {
        Stroke {
            paint: Smart::Auto,
            thickness: Smart::Auto,
            cap: Smart::Auto,
            join: Smart::Auto,
            dash: Smart::Auto,
            miter_limit: Smart::Auto,
        }
    }

    /// This stroke folded with an outer one: each property that this stroke
    /// leaves unset is taken from the outer stroke.
    pub open spec fn spec_fold(self, outer: Stroke) -> Stroke {
        Stroke {
            paint: spec_smart_or(self.paint, outer.paint),
            thickness: spec_smart_or(self.thickness, outer.thickness),
            cap: spec_smart_or(self.cap, outer.cap),
            join: spec_smart_or(self.join, outer.join),
            dash: spec_smart_or(self.dash, outer.dash),
            miter_limit: spec_smart_or(self.miter_limit, outer.miter_limit),
        }
    }

    /// Folds this stroke with an outer one: each property that this stroke
    /// leaves unset is taken from the outer stroke.
    pub fn fold(self, outer: Stroke) -> (r: Stroke)
        ensures
            r == self.spec_fold(outer),
    {
        Stroke {
            paint: smart_or(self.paint, outer.paint),
            thickness: smart_or(self.thickness, outer.thickness),
            cap: smart_or(self.cap, outer.cap),
            join: smart_or(self.join, outer.join),
            dash: smart_or(self.dash, outer.dash),
            miter_limit: smart_or(self.miter_limit, outer.miter_limit),
        }
    }
}

/// An optional stroke folded with an outer one: two present strokes are
/// folded, otherwise the inner value wins, so an explicit absence is kept.
pub open spec fn spec_fold_option(inner: Option<Stroke>, outer: Option<Stroke>) -> Option<Stroke> {
    match (inner, outer) {
        (Some(i), Some(o)) => Some(i.spec_fold(o)),
        _ => inner,
    }
}

/// Folds an optional stroke with an outer one: two present strokes are
/// folded, otherwise the inner value wins, so an explicit absence is kept.
pub fn fold_option(inner: Option<Stroke>, outer: Option<Stroke>) -> (r: Option<Stroke>)
    ensures
        r == spec_fold_option(inner, outer),
{
    match (inner, outer) {
        (Some(i), Some(o)) => Some(i.fold(o)),
        _ => inner,
    }
}

/// Folding is associative, and the unset stroke is neutral on both sides.
pub proof fn lemma_stroke_fold_laws(a: Stroke, b: Stroke, c: Stroke)
    ensures
        a.spec_fold(b).spec_fold(c) == a.spec_fold(b.spec_fold(c)),
        a.spec_fold(Stroke::spec_default()) == a,
        Stroke::spec_default().spec_fold(a) == a,
        a.spec_fold(a) == a,
{
}

} // verus!
