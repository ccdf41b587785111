//! Two-dimensional coordinates.

use vstd::prelude::*;

verus! {

/// A coordinate pair over any numeric representation.
#[derive(Debug, Clone, Copy)]
pub struct Point<T> {
    pub x: T,
    pub y: T,
}

impl<T> Point<T> {
    pub fn new(x: T, y: T) -> (p: Point<T>)
        ensures
            p.x == x,
            p.y == y,
    {
        Point { x, y }
    }
}

/// An integer pixel address: `x` is the row, `y` the column.
pub type Pixel = Point<i32>;

} // verus!
