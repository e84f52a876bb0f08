use vstd::prelude::*;

verus! {

/// An axis-aligned rectangle given by its two corners, `(x1, y1)` the top-left
/// and `(x2, y2)` the bottom-right one.
#[derive(Clone, Copy, PartialEq, Eq, Structural, Debug)]
pub struct Rect {
    pub x1: i32,
    pub y1: i32,
    pub x2: i32,
    pub y2: i32,
}

/// Whether two rectangles overlap (touching borders count as overlapping).
pub open spec fn rects_intersect(a: Rect, b: Rect) -> bool {
    a.x1 <= b.x2 && a.x2 >= b.x1 && a.y1 <= b.y2 && a.y2 >= b.y1
}

/// Integer division by two rounding towards zero, as Rust's `/` does.
pub open spec fn half_toward_zero(v: int) -> int {
    if v >= 0 { v / 2 } else { -((-v) / 2) }
}

impl Rect {
    /// The centre of the rectangle.
    pub open spec fn spec_center(self) -> (int, int) {
        (half_toward_zero(self.x1 + self.x2), half_toward_zero(self.y1 + self.y2))
    }

    /// A rectangle whose top-left corner is `(x, y)`, `w` wide and `h` high.
    pub fn new(x: i32, y: i32, w: i32, h: i32) -> (r: Rect)
        requires
            i32::MIN <= x + w <= i32::MAX,
            i32::MIN <= y + h <= i32::MAX,
        ensures
            r == (Rect { x1: x, y1: y, x2: (x + w) as i32, y2: (y + h) as i32 }),
    {
        Rect { x1: x, y1: y, x2: x + w, y2: y + h }
    }

    /// Whether `self` and `other` overlap.
    pub fn intersect(&self, other: &Rect) -> (b: bool)
        ensures
            b == rects_intersect(*self, *other),
    {
        self.x1 <= other.x2 && self.x2 >= other.x1 && self.y1 <= other.y2 && self.y2 >= other.y1
    }

    /// The centre of the rectangle, rounded towards zero.
    pub fn center(&self) -> (c: (i32, i32))
        requires
            i32::MIN <= self.x1 + self.x2 <= i32::MAX,
            i32::MIN <= self.y1 + self.y2 <= i32::MAX,
        ensures
            c.0 == self.spec_center().0,
            c.1 == self.spec_center().1,
    {
        ((self.x1 + self.x2) / 2, (self.y1 + self.y2) / 2)
    }
}

/// Overlap of rectangles does not depend on the order in which they are given.
pub proof fn lemma_intersect_symmetric(a: Rect, b: Rect)
    ensures
        rects_intersect(a, b) == rects_intersect(b, a),
{
}

} // verus!
