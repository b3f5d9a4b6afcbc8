//! Points on the integer pixel grid.

use vstd::prelude::*;

verus! {

/// A position on the pixel grid.
#[derive(Clone, Copy, Debug, PartialEq, Eq, Structural, PartialOrd, Ord, Hash, Default)]
pub struct Point {
    /// Horizontal coordinate.
    pub x: i32,
    /// Vertical coordinate.
    pub y: i32,
}

impl View for Point {
    type V = (int, int);

    /// A point is modelled by its pair of coordinates, as unbounded integers.
    open spec fn view(&self) -> (int, int) {
        (self.x as int, self.y as int)
    }
}

/// Whether a pair of unbounded coordinates can be held by a `Point`.
pub open spec fn representable(p: (int, int)) -> bool {
    &&& i32::MIN <= p.0 <= i32::MAX
    &&& i32::MIN <= p.1 <= i32::MAX
}

impl Point {
    /// Creates the point `(x, y)`.
    pub fn new(x: i32, y: i32) -> (p: Point)
        ensures
            p.x == x,
            p.y == y,
    {
        Point { x, y }
    }

    /// The point moved by `by`. The result must be a point of the grid.
    pub fn plus(self, by: Point) -> (q: Point)
        requires
            representable((self@.0 + by@.0, self@.1 + by@.1)),
        ensures
            q@ == (self@.0 + by@.0, self@.1 + by@.1),
    {
        Point { x: self.x + by.x, y: self.y + by.y }
    }

    /// The point moved against `by`. The result must be a point of the grid.
    pub fn minus(self, by: Point) -> (q: Point)
        requires
            representable((self@.0 - by@.0, self@.1 - by@.1)),
        ensures
            q@ == (self@.0 - by@.0, self@.1 - by@.1),
    {
        Point { x: self.x - by.x, y: self.y - by.y }
    }
}

} // verus!
