//! Page margins.

use vstd::prelude::*;

use crate::geom::{Length, Rel, Sides, Smart};

verus! {

/// A margin on one side: automatic or a relative length.
pub type MarginLength = Smart<Rel<Length>>;

/// Defines a page's margin.
///
/// A margin has four components: left, top, right, bottom. A missing
/// component leaves the margin on that side as it was.
#[derive(Clone, Copy, PartialEq, Eq, Structural, Hash, Debug)]
pub struct Margin {
    /// The margins for each side.
    pub sides: Sides<Option<Smart<Rel<Length>>>>,
    /// Whether to swap `left` and `right` to make them `inside` and `outside`
    /// (when to swap depends on the binding).
    pub two_sided: Option<bool>,
}

/// The arguments a margin can be constructed from.
#[derive(Clone, Copy, PartialEq, Eq, Structural, Hash, Debug)]
pub enum MarginArgs {
    /// An existing margin, taken as it is.
    Margin(Margin),
    /// `auto`: the margins are set automatically on all sides.
    Auto,
    /// A single relative length for all sides.
    Length(Rel<Length>),
    /// The margins set individually by name.
    Named(NamedMargins),
}

/// The named margin arguments, each of them optional.
#[derive(Clone, Copy, PartialEq, Eq, Structural, Hash, Debug)]
pub struct NamedMargins {
    /// The margins on all sides except those for which a size is set
    /// explicitly.
    pub rest: Option<Smart<Rel<Length>>>,
    /// The horizontal margins.
    pub x: Option<Smart<Rel<Length>>>,
    /// The vertical margins.
    pub y: Option<Smart<Rel<Length>>>,
    /// The top margin.
    pub top: Option<Smart<Rel<Length>>>,
    /// The bottom margin.
    pub bottom: Option<Smart<Rel<Length>>>,
    /// The margin at the outer side of the page (opposite to the binding).
    pub outside: Option<Smart<Rel<Length>>>,
    /// The margin at the inner side of the page (where the binding is).
    pub inside: Option<Smart<Rel<Length>>>,
    /// The left margin.
    pub left: Option<Smart<Rel<Length>>>,
    /// The right margin.
    pub right: Option<Smart<Rel<Length>>>,
}

/// Why the arguments do not make a margin.
#[derive(Clone, Copy, PartialEq, Eq, Structural, Hash, Debug)]
pub enum MarginError {
    /// `inside` and `outside` are mutually exclusive with `left` and `right`.
    MixedSides,
}

/// The first present value, or `None`.
pub open spec fn spec_or<T>(a: Option<T>, b: Option<T>) -> Option<T> {
    match a {
        Some(v) => Some(v),
        None => b,
    }
}

/// The first present value, or `None`.
fn or<T>(a: Option<T>, b: Option<T>) -> (r: Option<T>)
    ensures
        r == spec_or(a, b),
{
    match a {
        Some(v) => Some(v),
        None => b,
    }
}

/// The margin the data gives, or the error: the lateral margins come either
/// from `inside` and `outside` or from `left` and `right`, never both; the
/// margin is two-sided if `inside` or `outside` is set, not two-sided if
/// `left` or `right` is, and undecided otherwise.
pub open spec fn spec_margin_from_data(
    data: [Option<Smart<Rel<Length>>>; 7],
) -> Result<Margin, MarginError> {
    let (x, top, bottom, outside, inside, left, right) = (
        data[0],
        data[1],
        data[2],
        data[3],
        data[4],
        data[5],
        data[6],
    );
    let two = outside is Some || inside is Some;
    let not_two = left is Some || right is Some;
    if two && not_two {
        Err(MarginError::MixedSides)
    } else {
        Ok(
            Margin {
                sides: Sides {
                    left: spec_or(spec_or(inside, left), x),
                    top,
                    right: spec_or(spec_or(outside, right), x),
                    bottom,
                },
                two_sided: if two || not_two {
                    Some(two)
                } else {
                    None
                },
            },
        )
    }
}

/// The margin from the data `[x, top, bottom, outside, inside, left, right]`.
pub fn construct_margin_from_data(data: [Option<Smart<Rel<Length>>>; 7]) -> (r: Result<
    Margin,
    MarginError,
>)
    ensures
        r == spec_margin_from_data(data),
{
    let x = data[0];
    let top = data[1];
    let bottom = data[2];
    let outside = data[3];
    let inside = data[4];
    let left = data[5];
    let right = data[6];
    let implicitly_two_sided = outside.is_some() || inside.is_some();
    let implicitly_not_two_sided = left.is_some() || right.is_some();
    if implicitly_two_sided && implicitly_not_two_sided {
        return Err(MarginError::MixedSides);
    }
    let two_sided = if implicitly_two_sided || implicitly_not_two_sided {
        Some(implicitly_two_sided)
    } else {
        None
    };
    Ok(
        Margin {
            sides: Sides {
                left: or(or(inside, left), x),
                top,
                right: or(or(outside, right), x),
                bottom,
            },
            two_sided,
        },
    )
}

/// The data `[x, top, bottom, outside, inside, left, right]` of named margin
/// arguments: `rest` fills in for a missing `x` and `y`, and `y` for a
/// missing `top` and `bottom`.
pub open spec fn spec_named_data(n: NamedMargins) -> [Option<Smart<Rel<Length>>>; 7] {
    let x = spec_or(n.x, n.rest);
    let y = spec_or(n.y, n.rest);
    [x, spec_or(n.top, y), spec_or(n.bottom, y), n.outside, n.inside, n.left, n.right]
}

impl Margin {
    /// A margin with four equal components.
    pub open spec fn spec_splat(value: Option<Smart<Rel<Length>>>) -> Margin {
        Margin {
            sides: Sides { left: value, top: value, right: value, bottom: value },
            two_sided: None,
        }
    }

    /// Create an instance with four equal components.
    pub fn splat(value: Option<Smart<Rel<Length>>>) -> (m: Self)
        ensures
            m == Margin::spec_splat(value),
    {
        Margin {
            sides: Sides { left: value, top: value, right: value, bottom: value },
            two_sided: None,
        }
    }

    /// The margin the arguments give, or the error.
    pub open spec fn spec_construct(args: MarginArgs) -> Result<Margin, MarginError> {
        match args {
            MarginArgs::Margin(m) => Ok(m),
            MarginArgs::Auto => Ok(Margin::spec_splat(Some(Smart::Auto))),
            MarginArgs::Length(v) => Ok(Margin::spec_splat(Some(Smart::Custom(v)))),
            MarginArgs::Named(n) => spec_margin_from_data(spec_named_data(n)),
        }
    }

    /// Construct a margin from arguments: an existing margin, `auto` for all
    /// sides, one relative length for all sides, or the margins by name.
    pub fn construct(args: MarginArgs) -> (r: Result<Margin, MarginError>)
        ensures
            r == Margin::spec_construct(args),
    {
        match args {
            MarginArgs::Margin(m) => Ok(m),
            MarginArgs::Auto => Ok(Margin::splat(Some(Smart::Auto))),
            MarginArgs::Length(v) => Ok(Margin::splat(Some(Smart::Custom(v)))),
            MarginArgs::Named(n) => {
                let x = or(n.x, n.rest);
                let y = or(n.y, n.rest);
                let top = or(n.top, y);
                let bottom = or(n.bottom, y);
                let data = [x, top, bottom, n.outside, n.inside, n.left, n.right];
                assert(data =~= spec_named_data(n));
                construct_margin_from_data(data)
            },
        }
    }

    /// The left margin.
    pub fn left(&self) -> (r: Option<Smart<Rel<Length>>>)
        ensures
            r == self.sides.left,
    {
        self.sides.left
    }

    /// The top margin.
    pub fn top(&self) -> (r: Option<Smart<Rel<Length>>>)
        ensures
            r == self.sides.top,
    {
        self.sides.top
    }

    /// The right margin.
    pub fn right(&self) -> (r: Option<Smart<Rel<Length>>>)
        ensures
            r == self.sides.right,
    {
        self.sides.right
    }

    /// The bottom margin.
    pub fn bottom(&self) -> (r: Option<Smart<Rel<Length>>>)
        ensures
            r == self.sides.bottom,
    {
        self.sides.bottom
    }
}

impl Default for Margin {
    fn default() -> (m: Self)
        ensures
            m == Margin::spec_splat(Some(Smart::Auto)),
    {
        Margin::splat(Some(Smart::Auto))
    }
}

} // verus!
