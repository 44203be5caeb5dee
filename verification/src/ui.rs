//! Screen-space UI primitives.
//!
//! The UI layer places widgets in whole-pixel rectangles; the
//! fractional unit conversions and the overlay rendering live outside.

use vstd::prelude::*;

verus! {

/// A pixel-space UI rectangle: position of its corner and dimensions.
#[derive(Clone, Copy, Debug, PartialEq, Eq, Structural)]
pub struct Rectangle {
    pub x_position: i32,
    pub y_position: i32,
    pub width: u32,
    pub height: u32,
}

impl Rectangle {
    /// Whether a pixel lies inside the rectangle.
    pub fn contains(&self, x: i32, y: i32) -> (r: bool)
        ensures
            r == (self.x_position <= x < self.x_position + self.width && self.y_position <= y
                < self.y_position + self.height),
    {
        self.x_position <= x && (x as i64) < self.x_position as i64 + self.width as i64
            && self.y_position <= y && (y as i64) < self.y_position as i64 + self.height as i64
    }
}

} // verus!
