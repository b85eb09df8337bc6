//! Clickable buttons.

use vstd::prelude::*;

verus! {

pub struct Button {
    pub x: i32,
    pub y: i32,
    pub width: u32,
    pub height: u32,
    pub text: String,
}

impl Button {
    pub fn new(x: i32, y: i32, width: u32, height: u32, text: &str) -> (button: Self)
        ensures
            button.x == x,
            button.y == y,
            button.width == width,
            button.height == height,
            button.text@ == text@,
    {
        Button { x, y, width, height, text: text.to_string() }
    }

    /// Whether `(x, y)` lies on the button, its four edges included. The width
    /// and height are taken as `i32`s (wrapping, as `as` does); the right edge
    /// is only computed for a point not left of the button, and the bottom
    /// edge only for a point that passed the horizontal test and is not above
    /// the button, and each must then be an `i32`.
    pub fn contains_point(&self, x: i32, y: i32) -> (inside: bool)
        requires
            x >= self.x ==> i32::MIN <= self.x + (self.width as i32) <= i32::MAX,
            x >= self.x && x <= self.x + (self.width as i32) && y >= self.y ==> i32::MIN
                <= self.y + (self.height as i32) <= i32::MAX,
        ensures
            inside == (self.x <= x <= self.x + (self.width as i32) && self.y <= y <= self.y + (
            self.height as i32)),
    {
        x >= self.x && x <= self.x + self.width as i32 && y >= self.y && y <= self.y
            + self.height as i32
    }
}

} // verus!
