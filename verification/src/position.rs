//! Integer positions on the playfield.

use vstd::prelude::*;

verus! {

/// A point of the playfield, or the size of the playfield itself.
#[derive(Debug, Clone, Copy, PartialEq, Eq, Hash, Structural)]
pub struct Vec2 {
    pub x: i32,
    pub y: i32,
}

impl Vec2 {
    /// The position with the given coordinates.
    pub fn xy(x: i32, y: i32) -> (p: Vec2)
        ensures
            p.x == x,
            p.y == y,
    {
        Vec2 { x, y }
    }

    /// Whether `other` lies on the same row, at most one column away.
    pub open spec fn touches(self, other: Vec2) -> bool {
        other.y == self.y && self.x - 1 <= other.x <= self.x + 1
    }

    /// Tests `touches` without leaving the range of `i32`.
    pub fn is_touching(&self, other: &Vec2) -> (b: bool)
        ensures
            b == self.touches(*other),
    {
        let gap: i64 = other.x as i64 - self.x as i64;
        other.y == self.y && -1 <= gap && gap <= 1
    }
}

} // verus!
