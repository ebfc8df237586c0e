use vstd::prelude::*;

verus! {

/// An axis-aligned rectangle, corners included in its coordinates.
#[derive(Clone, Copy, PartialEq, Eq, Structural, Debug)]
pub struct Rect {
    pub x1: i32,
    pub x2: i32,
    pub y1: i32,
    pub y2: i32,
}

/// Two rectangles overlap on an area of positive size.
pub open spec fn rects_overlap(a: Rect, b: Rect) -> bool {
    a.x1 < b.x2 && a.x2 > b.x1 && a.y1 < b.y2 && a.y2 > b.y1
}

impl Rect {
    /// Corners in non-negative coordinates whose sums fit an `i32`.
    pub open spec fn wf(&self) -> bool {
        &&& 0 <= self.x1 <= self.x2
        &&& 0 <= self.y1 <= self.y2
        &&& self.x2 <= i32::MAX / 2
        &&& self.y2 <= i32::MAX / 2
    }

    pub open spec fn center_spec(&self) -> (int, int) {
        ((self.x1 + self.x2) / 2, (self.y1 + self.y2) / 2)
    }

    /// The rectangle with top-left corner (x, y), `w` wide and `h` high.
    pub fn new(x: i32, y: i32, w: i32, h: i32) -> (r: Rect)
        requires
            i32::MIN <= x + w <= i32::MAX,
            i32::MIN <= y + h <= i32::MAX,
        ensures
            r == (Rect { x1: x, y1: y, x2: (x + w) as i32, y2: (y + h) as i32 }),
    {
        Rect { x1: x, y1: y, x2: x + w, y2: y + h }
    }

    /// Whether the two rectangles overlap, edges treated as half-open.
    pub fn intersects(&self, other: &Rect) -> (r: bool)
        ensures
            r == rects_overlap(*self, *other),
    {
        self.x1 < other.x2 && self.x2 > other.x1 && self.y1 < other.y2 && self.y2 > other.y1
    }

    pub fn center(&self) -> (r: (i32, i32))
        requires
            self.wf(),
        ensures
            r.0 == self.center_spec().0,
            r.1 == self.center_spec().1,
            self.x1 <= r.0 <= self.x2,
            self.y1 <= r.1 <= self.y2,
    {
        ((self.x1 + self.x2) / 2, (self.y1 + self.y2) / 2)
    }
}

} // verus!
