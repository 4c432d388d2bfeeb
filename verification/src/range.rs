//! Row and column ranges: a contiguous run of grid indices, normalized to an
//! anchor index and a length.

use vstd::prelude::*;

verus! {

/// A half-open run of grid indices, `start..end`. A single index `i` stands
/// for the run `i..i + 1`.
#[derive(Clone, Copy, Debug, PartialEq, Eq, Structural)]
pub struct GridRange {
    pub start: usize,
    pub end: usize,
}

impl GridRange {
    /// A range is ordered when its end does not precede its start.
    pub open spec fn ordered(self) -> bool {
        self.start <= self.end
    }

    /// The number of indices the range covers.
    pub fn len(&self) -> (n: usize)
        requires
            self.ordered(),
        ensures
            n == self.end - self.start,
    {
        self.end - self.start
    }

    /// Whether the range covers no index at all.
    pub fn is_empty(&self) -> (e: bool)
        requires
            self.ordered(),
        ensures
            e == (self.start == self.end),
    {
        self.len() == 0
    }
}

impl From<core::ops::Range<usize>> for GridRange {
    /// Takes the endpoints as they are; a backwards range is kept as given
    /// and is simply not ordered.
    fn from(val: core::ops::Range<usize>) -> (r: Self)
    {
        GridRange { start: val.start, end: val.end }
    }
}

impl vstd::std_specs::convert::FromSpecImpl<core::ops::Range<usize>> for GridRange {
    open spec fn obeys_from_spec() -> bool {
        true
    }

    open spec fn from_spec(val: core::ops::Range<usize>) -> Self {
        GridRange { start: val.start, end: val.end }
    }
}

impl From<usize> for GridRange {
    /// A single index spans one cell. The largest index, whose one-cell run
    /// has no representable end, becomes an empty range instead.
    fn from(val: usize) -> (r: Self)
    {
        GridRange { start: val, end: if val < usize::MAX { val + 1 } else { usize::MAX } }
    }
}

impl vstd::std_specs::convert::FromSpecImpl<usize> for GridRange {
    open spec fn obeys_from_spec() -> bool {
        true
    }

    open spec fn from_spec(val: usize) -> Self {
        GridRange { start: val, end: if val < usize::MAX { (val + 1) as usize } else { usize::MAX } }
    }
}

} // verus!
