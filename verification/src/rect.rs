use vstd::prelude::*;

verus! {

/// An axis-aligned rectangle on the integer grid, given by two opposite corners.
#[derive(PartialEq, Eq, Structural, Copy, Clone, Debug)]
pub struct Rect {
    pub x1: i32,
    pub x2: i32,
    pub y1: i32,
    pub y2: i32,
}

/// Half of `sum`, rounded toward zero.
pub open spec fn halve(sum: int) -> int {
    if sum >= 0 {
        sum / 2
    } else {
        -((-sum) / 2)
    }
}

impl Rect {
    /// The first corner lies strictly before the second on both axes.
    pub open spec fn well_formed(self) -> bool {
        self.x1 < self.x2 && self.y1 < self.y2
    }

    /// The two rectangles share at least one point, their edges included.
    pub open spec fn spec_intersect(&self, other: &Rect) -> bool {
        self.x1 <= other.x2 && self.x2 >= other.x1 && self.y1 <= other.y2 && self.y2 >= other.y1
    }

    /// The midpoint of the rectangle, each coordinate rounded toward zero.
    pub open spec fn spec_center(&self) -> (i32, i32) {
        (halve(self.x1 + self.x2) as i32, halve(self.y1 + self.y2) as i32)
    }

    /// The cell `(x, y)` belongs to the part of the rectangle that is opened up
    /// when the rectangle becomes a room: everything but its top row and left column.
    pub open spec fn carves(self, x: int, y: int) -> bool {
        self.x1 < x <= self.x2 && self.y1 < y <= self.y2
    }

    /// The rectangle with top-left corner `(x, y)`, `w` cells wide and `h` cells high.
    pub fn new(x: i32, y: i32, w: i32, h: i32) -> (rect: Rect)
        requires
            i32::MIN <= x + w <= i32::MAX,
            i32::MIN <= y + h <= i32::MAX,
        ensures
            rect == (Rect { x1: x, x2: (x + w) as i32, y1: y, y2: (y + h) as i32 }),
            w > 0 && h > 0 ==> rect.well_formed(),
    {
        Rect { x1: x, y1: y, x2: x + w, y2: y + h }
    }

    /// Whether this rectangle overlaps `other`. Rectangles that only touch along
    /// an edge or at a corner count as overlapping.
    #[verifier::when_used_as_spec(spec_intersect)]
    pub fn intersect(&self, other: &Rect) -> (overlap: bool)
        ensures
            overlap == self.spec_intersect(other),
    {
        self.x1 <= other.x2 && self.x2 >= other.x1 && self.y1 <= other.y2 && self.y2 >= other.y1
    }

    /// The midpoint of the rectangle, each coordinate rounded toward zero.
    #[verifier::when_used_as_spec(spec_center)]
    pub fn center(&self) -> (mid: (i32, i32))
        ensures
            mid == self.spec_center(),
            mid.0 == halve(self.x1 + self.x2),
            mid.1 == halve(self.y1 + self.y2),
    {
        let sum_x: i64 = self.x1 as i64 + self.x2 as i64;
        let sum_y: i64 = self.y1 as i64 + self.y2 as i64;
        ((sum_x / 2) as i32, (sum_y / 2) as i32)
    }
}

/// Overlap does not depend on which rectangle is asked.
pub proof fn intersect_is_symmetric(a: Rect, b: Rect)
    ensures
        a.intersect(&b) == b.intersect(&a),
{
}

/// A well-formed rectangle lies between its corners, so its midpoint does too.
pub proof fn center_lies_inside(r: Rect)
    requires
        r.well_formed(),
    ensures
        r.x1 <= r.center().0 <= r.x2,
        r.y1 <= r.center().1 <= r.y2,
{
}

} // verus!
