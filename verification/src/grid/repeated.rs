//! Repeatable headers and footers of a grid.

use vstd::prelude::*;

verus! {

/// A repeatable grid header. Starts at the first row.
#[derive(Clone, Copy, PartialEq, Eq, Structural, Hash, Debug)]
pub struct Header {
    /// The index after the last row included in this header.
    pub end: usize,
}

/// A repeatable grid footer. Stops at the last row.
#[derive(Clone, Copy, PartialEq, Eq, Structural, Hash, Debug)]
pub struct Footer {
    /// The first row included in this footer.
    pub start: usize,
}

/// A possibly repeatable grid object.
pub enum Repeatable<T> {
    /// The object is repeated on every region.
    Repeated(T),
    /// The object appears once.
    NotRepeated(T),
}

impl<T> Repeatable<T> {
    /// Gets the value inside this repeatable, regardless of whether it
    /// repeats.
    pub fn unwrap(&self) -> (r: &T)
        ensures
            match self {
                Repeatable::Repeated(v) => r == v,
                Repeatable::NotRepeated(v) => r == v,
            },
    {
        match self {
            Repeatable::Repeated(repeated) => repeated,
            Repeatable::NotRepeated(not_repeated) => not_repeated,
        }
    }

    /// Returns `Some` if the value is repeated, `None` otherwise.
    pub fn as_repeated(&self) -> (r: Option<&T>)
        ensures
            match self {
                Repeatable::Repeated(v) => r == Some(v),
                Repeatable::NotRepeated(_) => r is None,
            },
    {
        match self {
            Repeatable::Repeated(repeated) => Some(repeated),
            Repeatable::NotRepeated(_) => None,
        }
    }
}

} // verus!
