//! Regions to lay content out into.

use vstd::prelude::*;

use crate::geom::{Abs, Axes, Size};

verus! {

/// A single region to layout into.
#[derive(Clone, Copy, PartialEq, Eq, Structural, Hash, Debug)]
pub struct Region {
    /// The size of the region.
    pub size: Size,
    /// Whether elements should expand to fill the region instead of shrinking
    /// to fit the content.
    pub expand: Axes<bool>,
}

impl Region {
    /// Create a new region.
    pub fn new(size: Size, expand: Axes<bool>) -> (r: Self)
        ensures
            r.size == size,
            r.expand == expand,
    {
        Region { size, expand }
    }
}

/// A sequence of regions to layout into, all of the same width.
///
/// The first region is partially used up: its remaining size is `size`, its
/// full height `full`. The heights of the following regions are the backlog,
/// and after it the last height, if any, repeats forever.
#[derive(Clone, Copy, Debug)]
pub struct Regions<'a> {
    /// The remaining size of the first region.
    pub size: Size,
    /// Whether elements should expand to fill the regions instead of shrinking
    /// to fit the content.
    pub expand: Axes<bool>,
    /// The full height of the region for relative sizing.
    pub full: Abs,
    /// The height of followup regions. The width is the same for all regions.
    pub backlog: &'a [Abs],
    /// The height of the final region that is repeated once the backlog is
    /// drained.
    pub last: Option<Abs>,
}

/// A sequence of regions as plain values.
pub struct RegionsView {
    /// The remaining size of the first region.
    pub size: Size,
    /// Whether elements should expand to fill the regions.
    pub expand: Axes<bool>,
    /// The full height of the first region.
    pub full: Abs,
    /// The heights of the followup regions.
    pub backlog: Seq<Abs>,
    /// The height of the final, repeated region.
    pub last: Option<Abs>,
}

impl RegionsView {
    /// Whether a region break is permitted.
    pub open spec fn spec_may_break(&self) -> bool {
        self.backlog.len() > 0 || self.last is Some
    }

    /// Whether the first region is the last one: no backlog follows, and it
    /// is the repeated last region if there is one.
    pub open spec fn spec_in_last(&self) -> bool {
        self.backlog.len() == 0 && match self.last {
            Some(h) => self.size.y == h,
            None => true,
        }
    }

    /// Whether calling `next()` may improve a situation where there is a lack
    /// of space.
    pub open spec fn spec_may_progress(&self) -> bool {
        self.backlog.len() > 0 || (self.last matches Some(h) && self.size.y != h)
    }

    /// The regions after advancing to the next region, if there is any.
    pub open spec fn spec_next(self) -> RegionsView {
        if self.backlog.len() > 0 {
            let h = self.backlog[0];
            RegionsView {
                size: Axes { x: self.size.x, y: h },
                full: h,
                backlog: self.backlog.subrange(1, self.backlog.len() as int),
                ..self
            }
        } else {
            match self.last {
                Some(h) => RegionsView { size: Axes { x: self.size.x, y: h }, full: h, ..self },
                None => self,
            }
        }
    }

    /// The size of the region with the given index, counting the first one as
    /// zero, or `None` after the last region when the regions end.
    pub open spec fn spec_item(&self, i: int) -> Option<Size> {
        if i == 0 {
            Some(self.size)
        } else if 1 <= i <= self.backlog.len() {
            Some(Axes { x: self.size.x, y: self.backlog[i - 1] })
        } else if i > self.backlog.len() {
            match self.last {
                Some(h) => Some(Axes { x: self.size.x, y: h }),
                None => None,
            }
        } else {
            None
        }
    }
}

impl<'a> Regions<'a> {
    /// The regions made of a single region.
    pub fn from_region(region: Region) -> (r: Regions<'static>)
        ensures
            r.size == region.size,
            r.expand == region.expand,
            r.full == region.size.y,
            r.backlog@.len() == 0,
            r.last is None,
    {
        Regions {
            size: region.size,
            expand: region.expand,
            full: region.size.y,
            backlog: &[],
            last: None,
        }
    }

    /// Create a new sequence of same-size regions that repeats indefinitely.
    pub fn repeat(size: Size, expand: Axes<bool>) -> (r: Regions<'static>)
        ensures
            r.size == size,
            r.expand == expand,
            r.full == size.y,
            r.backlog@.len() == 0,
            r.last == Some(size.y),
    {
        Regions { size, full: size.y, backlog: &[], last: Some(size.y), expand }
    }

    /// The base size, which doesn't take into account that the regions are
    /// already partially used up.
    pub fn base(&self) -> (r: Size)
        ensures
            r.x == self.size.x,
            r.y == self.full,
    {
        Axes::new(self.size.x, self.full)
    }

    /// The regions as plain values.
    pub open spec fn view(&self) -> RegionsView {
        RegionsView {
            size: self.size,
            expand: self.expand,
            full: self.full,
            backlog: self.backlog@,
            last: self.last,
        }
    }

    /// Create new regions where all sizes are mapped with `f`, writing the
    /// mapped backlog into `backlog`. Since all regions have the same width,
    /// the width returned by `f` is ignored for the backlog and the last
    /// region.
    pub fn map<'v, F>(&self, backlog: &'v mut Vec<Abs>, f: F) -> (r: Regions<'v>) where
        F: Fn(Size) -> Size,

        requires
            forall|s: Size| f.requires((s,)),
        ensures
            f.ensures((self.size,), r.size),
            maps_height(f, self.size.x, self.full, r.full),
            r.expand == self.expand,
            r.backlog@.len() == self.backlog@.len(),
            forall|i: int|
                0 <= i < self.backlog@.len() ==> maps_height(
                    f,
                    self.size.x,
                    self.backlog@[i],
                    #[trigger] r.backlog@[i],
                ),
            match self.last {
                Some(h) => r.last matches Some(m) && maps_height(f, self.size.x, h, m),
                None => r.last is None,
            },
            final(backlog)@ == r.backlog@,
    {
        let x = self.size.x;
        backlog.clear();
        let mut i: usize = 0;
        while i < self.backlog.len()
            invariant
                i <= self.backlog@.len(),
                x == self.size.x,
                backlog@.len() == i,
                forall|s: Size| f.requires((s,)),
                forall|k: int|
                    0 <= k < i ==> maps_height(f, x, self.backlog@[k], #[trigger] backlog@[k]),
            decreases self.backlog@.len() - i,
        {
            let s = f(Axes { x, y: self.backlog[i] });
            let ghost prev = backlog@;
            backlog.push(s.y);
            proof {
                assert(maps_height(f, x, self.backlog@[i as int], s.y));
                assert forall|k: int| 0 <= k < i + 1 implies maps_height(
                    f,
                    x,
                    self.backlog@[k],
                    #[trigger] backlog@[k],
                ) by {
                    if k < i {
                        assert(backlog@[k] == prev[k]);
                    }
                }
            }
            i += 1;
        }
        let size = f(self.size);
        let fs = f(Axes { x, y: self.full });
        assert(maps_height(f, x, self.full, fs.y));
        let last = match self.last {
            Some(h) => {
                let ls = f(Axes { x, y: h });
                assert(maps_height(f, x, h, ls.y));
                Some(ls.y)
            },
            None => None,
        };
        let ghost filled = backlog@;
        let mapped: &'v Vec<Abs> = backlog;
        let slice = mapped.as_slice();
        assert(slice@ == filled);
        Regions { size, full: fs.y, backlog: slice, last, expand: self.expand }
    }

    /// Whether the first region is full and a region break is called for.
    pub fn is_full(&self) -> (r: bool)
        ensures
            r == (self.size.y.0 <= 0 && self@.spec_may_progress()),
    {
        Abs::zero().fits(self.size.y) && self.may_progress()
    }

    /// Whether the first region is the last one.
    pub fn in_last(&self) -> (r: bool)
        ensures
            r == self@.spec_in_last(),
    {
        self.backlog.len() == 0 && match self.last {
            Some(h) => self.size.y.0 == h.0,
            None => true,
        }
    }

    /// Whether a region break is permitted.
    pub fn may_break(&self) -> (r: bool)
        ensures
            r == self@.spec_may_break(),
    {
        !self.backlog.is_empty() || self.last.is_some()
    }

    /// Whether calling `next()` may improve a situation where there is a lack
    /// of space.
    pub fn may_progress(&self) -> (r: bool)
        ensures
            r == self@.spec_may_progress(),
    {
        if !self.backlog.is_empty() {
            return true;
        }
        match self.last {
            Some(h) => self.size.y.0 != h.0,
            None => false,
        }
    }

    /// Advance to the next region if there is any.
    pub fn next(&mut self)
        ensures
            final(self)@ == old(self)@.spec_next(),
    {
        if self.backlog.len() > 0 {
            let first = self.backlog[0];
            let tail = &self.backlog[1..self.backlog.len()];
            self.backlog = tail;
            self.size.y = first;
            self.full = first;
        } else {
            match self.last {
                Some(h) => {
                    self.size.y = h;
                    self.full = h;
                },
                None => {},
            }
        }
    }

    /// The sizes of the first `count` regions, as calling `next()`
    /// repeatedly would produce them; fewer when the regions end before.
    pub fn iter(&self, count: usize) -> (r: Vec<Size>)
        ensures
            r@.len() <= count,
            forall|i: int| 0 <= i < r@.len() ==> Some(#[trigger] r@[i]) == self@.spec_item(i),
            r@.len() < count ==> self@.spec_item(r@.len() as int) is None,
    {
        let mut out: Vec<Size> = Vec::new();
        let mut i: usize = 0;
        while i < count
            invariant
                i <= count,
                out@.len() == i,
                forall|k: int| 0 <= k < i ==> Some(#[trigger] out@[k]) == self@.spec_item(k),
            decreases count - i,
        {
            let item = if i == 0 {
                Some(self.size)
            } else if i <= self.backlog.len() {
                Some(Axes::new(self.size.x, self.backlog[i - 1]))
            } else {
                match self.last {
                    Some(h) => Some(Axes::new(self.size.x, h)),
                    None => None,
                }
            };
            match item {
                Some(s) => {
                    out.push(s);
                },
                None => {
                    return out;
                },
            }
            i += 1;
        }
        out
    }
}

/// Whether `f` can map a region of width `x` and height `h` to one of height
/// `out`.
pub open spec fn maps_height<F: Fn(Size) -> Size>(f: F, x: Abs, h: Abs, out: Abs) -> bool {
    exists|s: Size| f.ensures((Axes { x, y: h },), s) && s.y == out
}

/// Advancing to the next region shifts the sequence of region sizes by one,
/// when a region break is permitted: what the regions give after the first
/// region is what `next()` gives from the start.
pub proof fn lemma_next_shifts_items(regions: RegionsView, i: int)
    requires
        regions.spec_may_break(),
        i >= 0,
    ensures
        regions.spec_next().spec_item(i) == regions.spec_item(i + 1),
{
}

/// The regions after advancing `k` times to the next region.
pub open spec fn spec_advance(regions: RegionsView, k: nat) -> RegionsView
    decreases k,
{
    if k == 0 {
        regions
    } else {
        spec_advance(regions.spec_next(), (k - 1) as nat)
    }
}

/// Iterating over the regions yields the size of the first region and then,
/// at each step, the size of the first region after advancing that many
/// times; it ends after the backlog unless a last region repeats forever.
pub proof fn lemma_items_are_advanced_sizes(regions: RegionsView, k: nat)
    ensures
        regions.spec_item(k as int) == if regions.last is None && k > regions.backlog.len() {
            None
        } else {
            Some(spec_advance(regions, k).size)
        },
    decreases k,
{
    if k > 0 && regions.spec_may_break() {
        lemma_next_shifts_items(regions, k - 1);
        lemma_items_are_advanced_sizes(regions.spec_next(), (k - 1) as nat);
    }
}

/// Without a permitted region break, `next()` changes nothing.
pub proof fn lemma_next_without_break(regions: RegionsView)
    requires
        !regions.spec_may_break(),
    ensures
        regions.spec_next() == regions,
{
}


impl<'a> From<Region> for Regions<'a> {
    /// The regions made of a single region.
    fn from(region: Region) -> (r: Self) {
        Regions {
            size: region.size,
            expand: region.expand,
            full: region.size.y,
            backlog: &[],
            last: None,
        }
    }
}


impl<'a> vstd::std_specs::convert::FromSpecImpl<Region> for Regions<'a> {
    open spec fn obeys_from_spec() -> bool {
        true
    }

    open spec fn from_spec(region: Region) -> Self {
        Regions {
            size: region.size,
            expand: region.expand,
            full: region.size.y,
            backlog: &[],
            last: None,
        }
    }
}

} // verus!
