//! Axis-aligned rectangles on the terminal grid.

use vstd::prelude::*;
use crate::vector::Vector2;

verus! {

/// A rectangle given by its top-left corner and a non-negative extent.
#[derive(Clone, Copy, Debug, PartialEq, Eq, Structural)]
pub struct Rect {
    pub position: Vector2,
    pub size: Vector2,
}

/// Width of a border to strip from every side of a rectangle.
#[derive(Clone, Copy, Debug, PartialEq, Eq, Structural)]
pub struct BorderSize {
    pub size: i32,
}

impl BorderSize {
    pub fn new(size: i32) -> (r: Self)
        requires
            0 <= size,
        ensures
            r.size == size,
    {
        BorderSize { size }
    }
}

impl Rect {
    /// True when the extent is non-negative and the bottom-right corner
    /// can be represented without overflow.
    pub open spec fn wf(self) -> bool {
        &&& 0 <= self.size.x
        &&& 0 <= self.size.y
        &&& self.position.x + self.size.x <= i32::MAX
        &&& self.position.y + self.size.y <= i32::MAX
    }

    /// True when `v` lies inside the rectangle.
    pub open spec fn spec_contains(self, v: Vector2) -> bool {
        &&& self.position.x <= v.x < self.position.x + self.size.x
        &&& self.position.y <= v.y < self.position.y + self.size.y
    }

    /// The extent is clamped to be non-negative; a rectangle never has a
    /// negative width or height.
    pub fn new(position: Vector2, size: Vector2) -> (r: Self)
        ensures
            r.position == position,
            r.size.x == if size.x >= 0 { size.x as int } else { 0int },
            r.size.y == if size.y >= 0 { size.y as int } else { 0int },
    {
        let size = size.max(Vector2::null());
        Rect { position, size }
    }

    pub fn contains(&self, vector: Vector2) -> (r: bool)
        ensures
            r == self.spec_contains(vector),
    {
        (vector.x as i64) >= (self.position.x as i64)
            && (vector.y as i64) >= (self.position.y as i64)
            && (vector.x as i64) < (self.position.x as i64) + (self.size.x as i64)
            && (vector.y as i64) < (self.position.y as i64) + (self.size.y as i64)
    }

    pub fn position(&self) -> (r: Vector2)
        ensures
            r == self.position,
    {
        self.position
    }

    pub fn top_left(&self) -> (r: Vector2)
        ensures
            r == self.position,
    {
        self.position
    }

    pub fn bottom_right(&self) -> (r: Vector2)
        requires
            self.wf(),
        ensures
            r.x == self.position.x + self.size.x,
            r.y == self.position.y + self.size.y,
    {
        Vector2 { x: self.position.x + self.size.x, y: self.position.y + self.size.y }
    }

    pub fn size(&self) -> (r: Vector2)
        ensures
            r == self.size,
    {
        self.size
    }

    pub fn set_size(&mut self, size: Vector2)
        ensures
            final(self).position == old(self).position,
            final(self).size.x == if size.x >= 0 { size.x as int } else { 0int },
            final(self).size.y == if size.y >= 0 { size.y as int } else { 0int },
    {
        self.size = size.max(Vector2::null());
    }

    /// Strips a border of the given width from every side: the position
    /// moves inward and the extent loses twice the border width, but never
    /// becomes negative.
    pub fn shrink(self, border: BorderSize) -> (r: Rect)
        requires
            self.wf(),
            0 <= border.size,
        ensures
            r.position.x == self.position.x + if border.size <= self.size.x { border.size as int } else { self.size.x as int },
            r.position.y == self.position.y + if border.size <= self.size.y { border.size as int } else { self.size.y as int },
            r.size.x == if 2 * border.size <= self.size.x { self.size.x - 2 * border.size } else { 0int },
            r.size.y == if 2 * border.size <= self.size.y { self.size.y - 2 * border.size } else { 0int },
    {
        let dx: i32 = if border.size <= self.size.x { border.size } else { self.size.x };
        let dy: i32 = if border.size <= self.size.y { border.size } else { self.size.y };
        let sx: i32 = if 2 * (border.size as i64) <= (self.size.x as i64) {
            self.size.x - 2 * border.size
        } else {
            0
        };
        let sy: i32 = if 2 * (border.size as i64) <= (self.size.y as i64) {
            self.size.y - 2 * border.size
        } else {
            0
        };
        Rect {
            position: Vector2 { x: self.position.x + dx, y: self.position.y + dy },
            size: Vector2 { x: sx, y: sy },
        }
    }
}

} // verus!
