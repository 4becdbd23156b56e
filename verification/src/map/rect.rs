use vstd::prelude::*;

verus! {

/// A rectangle on the grid, from `(x1, y1)` to `(x2, y2)`.
#[derive(Clone, Copy, Debug)]
pub struct Rect {
    pub x1: i32,
    pub y1: i32,
    pub x2: i32,
    pub y2: i32,
}

/// Half of `sum`, rounded towards zero.
pub open spec fn half(sum: int) -> int {
    if sum >= 0 {
        sum / 2
    } else {
        -((-sum) / 2)
    }
}

impl Rect {
    /// The middle of the rectangle.
    pub open spec fn spec_center(&self) -> (int, int) {
        (half(self.x1 + self.x2), half(self.y1 + self.y2))
    }

    /// The two rectangles have a point in common, if only on their borders.
    pub open spec fn spec_intersects_with(&self, other: &Rect) -> bool {
        self.x1 <= other.x2 && self.x2 >= other.x1 && self.y1 <= other.y2 && self.y2 >= other.y1
    }

    /// The point `(x, y)` lies inside the rectangle, off its border.
    pub open spec fn inside(&self, x: int, y: int) -> bool {
        self.x1 < x < self.x2 && self.y1 < y < self.y2
    }

    /// The rectangle with a corner at `(x, y)` that is `w` wide and `h` high.
    pub fn new(x: i32, y: i32, w: i32, h: i32) -> (rect: Rect)
        requires
            i32::MIN <= x + w <= i32::MAX,
            i32::MIN <= y + h <= i32::MAX,
        ensures
            rect.x1 == x,
            rect.y1 == y,
            rect.x2 == x + w,
            rect.y2 == y + h,
    {
        Rect { x1: x, y1: y, x2: x + w, y2: y + h }
    }

    /// The middle of the rectangle.
    pub fn center(&self) -> (middle: (i32, i32))
        ensures
            (middle.0 as int, middle.1 as int) == self.spec_center(),
    {
        let center_x = (self.x1 as i64 + self.x2 as i64) / 2;
        let center_y = (self.y1 as i64 + self.y2 as i64) / 2;
        (center_x as i32, center_y as i32)
    }

    /// Whether the two rectangles have a point in common.
    pub fn intersects_with(&self, other: &Rect) -> (hit: bool)
        ensures
            hit == self.spec_intersects_with(other),
    {
        (self.x1 <= other.x2) && (self.x2 >= other.x1) && (self.y1 <= other.y2) && (self.y2
            >= other.y1)
    }
}

} // verus!
