use vstd::prelude::*;

verus! {

/// One detection reported for the current frame: an axis-aligned rectangle
/// with integer top-left corner and size, and no identity of its own.
#[derive(Clone, Copy, Debug, PartialEq, Eq, Structural)]
pub struct Rect {
    pub x: i32,
    pub y: i32,
    pub width: u32,
    pub height: u32,
}

/// Twice the x coordinate of the rectangle's centre `x + width / 2`.
/// Working in doubled coordinates keeps the centre integral.
pub open spec fn doubled_center_x(x: int, width: int) -> int {
    2 * x + width
}

/// Twice the y coordinate of the rectangle's centre `y + height / 2`.
pub open spec fn doubled_center_y(y: int, height: int) -> int {
    2 * y + height
}

impl Rect {
    pub fn new(x: i32, y: i32, width: u32, height: u32) -> (r: Rect)
        ensures
            r == (Rect { x, y, width, height }),
    {
        Rect { x, y, width, height }
    }

    pub open spec fn spec_doubled_center_x(self) -> int {
        doubled_center_x(self.x as int, self.width as int)
    }

    pub open spec fn spec_doubled_center_y(self) -> int {
        doubled_center_y(self.y as int, self.height as int)
    }

    /// Twice the centre's x coordinate, exact in integers.
    pub fn doubled_center_x(&self) -> (c: i64)
        ensures
            c == self.spec_doubled_center_x(),
    {
        2 * (self.x as i64) + (self.width as i64)
    }

    /// Twice the centre's y coordinate, exact in integers.
    pub fn doubled_center_y(&self) -> (c: i64)
        ensures
            c == self.spec_doubled_center_y(),
    {
        2 * (self.y as i64) + (self.height as i64)
    }
}

} // verus!
