//! Axis-aligned rectangle used during dungeon generation for room footprints:
//! overlap rejection and center computation.

use vstd::prelude::*;

verus! {

/// A room footprint. `x1..=x2` and `y1..=y2` are the closed coordinate ranges
/// of the walls enclosing the room; the carved floor is the strict interior.
#[derive(Clone, Copy, Debug, PartialEq, Eq, Structural)]
pub struct Rect {
    pub x1: i32,
    pub y1: i32,
    pub x2: i32,
    pub y2: i32,
}

/// Two footprints overlap when their closed intervals overlap on both axes.
/// The test is inclusive, so rooms sharing even a single boundary coordinate
/// count as overlapping.
pub open spec fn rects_overlap(a: Rect, b: Rect) -> bool {
    a.x1 <= b.x2 && a.x2 >= b.x1 && a.y1 <= b.y2 && a.y2 >= b.y1
}

/// The x coordinate of a footprint's center tile.
pub open spec fn center_x(r: Rect) -> int {
    (r.x1 + r.x2) / 2
}

/// The y coordinate of a footprint's center tile.
pub open spec fn center_y(r: Rect) -> int {
    (r.y1 + r.y2) / 2
}

/// `(x, y)` lies strictly inside `r`: on the floor area that a carved room of
/// this footprint occupies.
pub open spec fn rect_interior(r: Rect, x: int, y: int) -> bool {
    r.x1 < x < r.x2 && r.y1 < y < r.y2
}

/// The center of a footprint at least two tiles wide and two tall lies
/// strictly inside it, on carved floor.
pub proof fn lemma_center_in_interior(r: Rect)
    requires
        r.x1 + 2 <= r.x2,
        r.y1 + 2 <= r.y2,
    ensures
        rect_interior(r, center_x(r), center_y(r)),
{
    assert(2 * r.x1 + 2 <= r.x1 + r.x2 <= 2 * r.x2 - 2);
    assert(r.x1 < (r.x1 + r.x2) / 2 < r.x2);
    assert(2 * r.y1 + 2 <= r.y1 + r.y2 <= 2 * r.y2 - 2);
    assert(r.y1 < (r.y1 + r.y2) / 2 < r.y2);
}

impl Rect {
    /// A footprint with origin `(x, y)`, width `w` and height `h`.
    pub fn new(x: i32, y: i32, w: i32, h: i32) -> (r: Rect)
        requires
            i32::MIN <= x + w <= i32::MAX,
            i32::MIN <= y + h <= i32::MAX,
        ensures
            r == (Rect { x1: x, y1: y, x2: (x + w) as i32, y2: (y + h) as i32 }),
    {
        Rect { x1: x, y1: y, x2: x + w, y2: y + h }
    }

    /// The center tile of the footprint.
    pub fn center(&self) -> (c: (i32, i32))
        requires
            0 <= self.x1 + self.x2 <= i32::MAX,
            0 <= self.y1 + self.y2 <= i32::MAX,
        ensures
            c.0 == center_x(*self),
            c.1 == center_y(*self),
    {
        let cx: i32 = (self.x1 + self.x2) / 2;
        let cy: i32 = (self.y1 + self.y2) / 2;
        (cx, cy)
    }

    /// Inclusive overlap test; see [`rects_overlap`].
    pub fn intersects_with(&self, other: &Rect) -> (r: bool)
        ensures
            r == rects_overlap(*self, *other),
    {
        (self.x1 <= other.x2) && (self.x2 >= other.x1) && (self.y1 <= other.y2)
            && (self.y2 >= other.y1)
    }
}

} // verus!
