use vstd::prelude::*;
use crate::draw::canvas::Canvas;

verus! {

impl Canvas {
    /// `x` is a column of the canvas: `0 <= x < width`, the width read as an
    /// `i32` (a width above `i32::MAX` reads as negative, so no column is in).
    pub open spec fn contains_x(&self, x: int) -> bool {
        &&& 0 <= x
        &&& x < self.width
        &&& self.width <= i32::MAX
    }

    /// `y` is a row of the canvas: `0 <= y < height`, the height read as an `i32`.
    pub open spec fn contains_y(&self, y: int) -> bool {
        &&& 0 <= y
        &&& y < self.height
        &&& self.height <= i32::MAX
    }

    /// `(x, y)` is a pixel of the canvas.
    pub open spec fn contains_point(&self, x: int, y: int) -> bool {
        self.contains_x(x) && self.contains_y(y)
    }

    /// Whether `(x, y)` lies inside the canvas.
    pub fn in_bounds(&self, x: i32, y: i32) -> (b: bool)
        ensures
            b == self.contains_point(x as int, y as int),
            b == (self.contains_x(x as int) && self.contains_y(y as int)),
    {
        x >= 0 && self.width <= 0x7fff_ffff && (x as u32) < self.width && y >= 0 && self.height
            <= 0x7fff_ffff && (y as u32) < self.height
    }

    /// Whether row `y` lies inside the canvas.
    pub fn in_bounds_y(&self, y: i32) -> (b: bool)
        ensures
            b == self.contains_y(y as int),
    {
        y >= 0 && self.height <= 0x7fff_ffff && (y as u32) < self.height
    }

    /// Whether column `x` lies inside the canvas.
    pub fn in_bounds_x(&self, x: i32) -> (b: bool)
        ensures
            b == self.contains_x(x as int),
    {
        x >= 0 && self.width <= 0x7fff_ffff && (x as u32) < self.width
    }
}

} // verus!
