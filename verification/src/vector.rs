//! 2-D integer vectors used for positions and extents.

use vstd::prelude::*;

verus! {

/// A position or extent on the terminal grid.  Coordinates are signed:
/// out-of-range accesses must be tolerated by the surfaces, not prevented
/// by the type.
#[derive(Clone, Copy, Debug, PartialEq, Eq, Structural)]
pub struct Vector2 {
    pub x: i32,
    pub y: i32,
}

impl Vector2 {
    pub fn new(x: i32, y: i32) -> (r: Self)
        ensures
            r == (Vector2 { x, y }),
    {
        Vector2 { x, y }
    }

    /// The origin.
    pub fn null() -> (r: Self)
        ensures
            r == (Vector2 { x: 0i32, y: 0i32 }),
    {
        Vector2 { x: 0, y: 0 }
    }

    /// Componentwise maximum.
    pub fn max(self, other: Self) -> (r: Self)
        ensures
            r.x == if self.x >= other.x { self.x } else { other.x },
            r.y == if self.y >= other.y { self.y } else { other.y },
    {
        Vector2 {
            x: if self.x >= other.x { self.x } else { other.x },
            y: if self.y >= other.y { self.y } else { other.y },
        }
    }

    /// Componentwise minimum.
    pub fn min(self, other: Self) -> (r: Self)
        ensures
            r.x == if self.x <= other.x { self.x } else { other.x },
            r.y == if self.y <= other.y { self.y } else { other.y },
    {
        Vector2 {
            x: if self.x <= other.x { self.x } else { other.x },
            y: if self.y <= other.y { self.y } else { other.y },
        }
    }

    /// Componentwise sign (-1, 0 or 1).
    pub fn signnum(self) -> (r: Self)
        ensures
            r.x == if self.x > 0 { 1int } else if self.x < 0 { -1int } else { 0int },
            r.y == if self.y > 0 { 1int } else if self.y < 0 { -1int } else { 0int },
    {
        Vector2 {
            x: if self.x > 0 { 1 } else if self.x < 0 { -1 } else { 0 },
            y: if self.y > 0 { 1 } else if self.y < 0 { -1 } else { 0 },
        }
    }

    /// Componentwise addition.
    pub fn add(self, other: Self) -> (r: Self)
        requires
            i32::MIN <= self.x + other.x <= i32::MAX,
            i32::MIN <= self.y + other.y <= i32::MAX,
        ensures
            r.x == self.x + other.x,
            r.y == self.y + other.y,
    {
        Vector2 { x: self.x + other.x, y: self.y + other.y }
    }

    /// Componentwise subtraction.
    pub fn sub(self, other: Self) -> (r: Self)
        requires
            i32::MIN <= self.x - other.x <= i32::MAX,
            i32::MIN <= self.y - other.y <= i32::MAX,
        ensures
            r.x == self.x - other.x,
            r.y == self.y - other.y,
    {
        Vector2 { x: self.x - other.x, y: self.y - other.y }
    }
}

} // verus!
