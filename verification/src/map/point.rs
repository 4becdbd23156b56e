use vstd::prelude::*;

verus! {

/// A position on the grid.
#[derive(Clone, Copy, Debug)]
pub struct Point {
    x: i32,
    y: i32,
}

impl View for Point {
    type V = (int, int);

    closed spec fn view(&self) -> (int, int) {
        (self.x as int, self.y as int)
    }
}

impl Point {
    /// The point `(0, 0)`.
    pub fn origin() -> (p: Point)
        ensures
            p@ == (0int, 0int),
    {
        Point { x: 0, y: 0 }
    }

    /// The point `(x, y)`.
    pub fn new(x: i32, y: i32) -> (p: Point)
        ensures
            p@ == (x as int, y as int),
    {
        Point { x: x, y: y }
    }
}

} // verus!
