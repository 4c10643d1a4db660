//! Screen geometry on an integer grid.
//!
//! All lengths and positions are counted in units of a tenth of a pixel, so
//! that the slowest movement in the games, a tenth of a pixel per frame, is a
//! whole number.

use vstd::prelude::*;

verus! {

/// Coordinate units per screen pixel.
pub const UNITS_PER_PIXEL: i32 = 10;

/// Width of the playing window: 800 pixels.
pub const SCREEN_WIDTH: i32 = 8000;

/// Height of the playing window: 600 pixels.
pub const SCREEN_HEIGHT: i32 = 6000;

/// An axis-aligned rectangle given by its top-left corner and its size.
#[derive(Clone, Copy, Debug, PartialEq, Eq, Structural)]
pub struct Rect {
    pub x: i32,
    pub y: i32,
    pub w: i32,
    pub h: i32,
}

/// The mathematical rectangle that a [`Rect`] stands for.
pub struct RectView {
    pub x: int,
    pub y: int,
    pub w: int,
    pub h: int,
}

impl RectView {
    /// The x coordinate of the left edge.
    pub open spec fn left(self) -> int {
        self.x
    }

    /// The x coordinate of the right edge.
    pub open spec fn right(self) -> int {
        self.x + self.w
    }

    /// The y coordinate of the top edge.
    pub open spec fn top(self) -> int {
        self.y
    }

    /// The y coordinate of the bottom edge.
    pub open spec fn bottom(self) -> int {
        self.y + self.h
    }

    /// Whether the point lies inside the rectangle or on its border.
    pub open spec fn covers(self, px: int, py: int) -> bool {
        &&& self.left() <= px <= self.right()
        &&& self.top() <= py <= self.bottom()
    }

    /// Whether the point lies strictly inside the rectangle.
    pub open spec fn covers_inside(self, px: int, py: int) -> bool {
        &&& self.left() < px < self.right()
        &&& self.top() < py < self.bottom()
    }

    /// Whether the two rectangles share at least one point; touching edges
    /// count.
    pub open spec fn meets(self, other: RectView) -> bool {
        &&& self.left() <= other.right()
        &&& self.right() >= other.left()
        &&& self.top() <= other.bottom()
        &&& self.bottom() >= other.top()
    }
}

impl View for Rect {
    type V = RectView;

    open spec fn view(&self) -> RectView {
        RectView { x: self.x as int, y: self.y as int, w: self.w as int, h: self.h as int }
    }
}

impl Rect {
    pub fn new(x: i32, y: i32, w: i32, h: i32) -> (r: Rect)
        ensures
            r == (Rect { x, y, w, h }),
    {
        Rect { x, y, w, h }
    }

    /// Tests whether the point `(px, py)` lies inside the rectangle, borders
    /// included.
    pub fn contains(&self, px: i32, py: i32) -> (inside: bool)
        ensures
            inside == self@.covers(px as int, py as int),
    {
        let right: i64 = self.x as i64 + self.w as i64;
        let bottom: i64 = self.y as i64 + self.h as i64;
        px >= self.x && px as i64 <= right && py as i64 <= bottom && py >= self.y
    }

    /// Tests whether the point `(px, py)` lies inside the rectangle and off
    /// its border.
    pub fn contains_strictly(&self, px: i32, py: i32) -> (inside: bool)
        ensures
            inside == self@.covers_inside(px as int, py as int),
    {
        let right: i64 = self.x as i64 + self.w as i64;
        let bottom: i64 = self.y as i64 + self.h as i64;
        px > self.x && (px as i64) < right && py > self.y && (py as i64) < bottom
    }

    /// Tests whether this rectangle and `other` overlap, touching edges
    /// included.
    pub fn overlaps(&self, other: &Rect) -> (hit: bool)
        ensures
            hit == self@.meets(other@),
    {
        let right: i64 = self.x as i64 + self.w as i64;
        let bottom: i64 = self.y as i64 + self.h as i64;
        let other_right: i64 = other.x as i64 + other.w as i64;
        let other_bottom: i64 = other.y as i64 + other.h as i64;
        self.x as i64 <= other_right && right >= other.x as i64 && self.y as i64 <= other_bottom
            && bottom >= other.y as i64
    }
}

} // verus!
