use std::sync::Arc;
use vstd::prelude::*;

verus! {

/// A position on one of the board's grids (tiles or points), by row `x`
/// and column `y`.
#[derive(Clone, Copy, Debug, PartialEq, Eq, Hash, Structural)]
pub struct Coordinate {
    pub x: usize,
    pub y: usize,
}

impl Coordinate {
    pub fn new(x: usize, y: usize) -> (c: Coordinate)
        ensures
            c == (Coordinate { x, y }),
    {
        Coordinate { x, y }
    }
}

impl Default for Coordinate {
    fn default() -> (c: Coordinate)
        ensures
            c == (Coordinate { x: 0, y: 0 }),
    {
        Coordinate { x: 0, y: 0 }
    }
}

/// A segment between two points of the board, the place of a road, a boat
/// or a harbor.
#[derive(Clone, Copy, Debug, PartialEq, Eq, Hash, Structural)]
pub struct Line {
    pub start: Coordinate,
    pub end: Coordinate,
}

impl Line {
    pub fn new(start: Coordinate, end: Coordinate) -> (l: Line)
        ensures
            l == (Line { start, end }),
    {
        Line { start, end }
    }

    /// Whether `c` is one of the two ends of the line.
    pub open spec fn touches(self, c: Coordinate) -> bool {
        self.start == c || self.end == c
    }
}

impl Default for Line {
    fn default() -> (l: Line)
        ensures
            l == (Line { start: Coordinate { x: 0, y: 0 }, end: Coordinate { x: 0, y: 0 } }),
    {
        Line { start: Coordinate::default(), end: Coordinate::default() }
    }
}

/// Another pointer to the value behind `a`, from `Arc::clone`, which
/// shares the allocation rather than copying the value: the result points
/// to a value equal to `a`'s.
#[verifier::external_body]
pub(crate) fn share<T>(a: &Arc<T>) -> (r: Arc<T>)
    ensures
        r == *a,
{
    Arc::clone(a)
}

} // verus!
