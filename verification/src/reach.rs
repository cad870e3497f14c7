//! Reachability over the tile grid: 4-connected walks across open tiles.
//! The dungeon generator's connectivity guarantee is stated and proved in
//! these terms.

use vstd::prelude::*;

use crate::grid::DungeonMap;
use crate::rect::{center_x, center_y, rect_interior, Rect};

verus! {

/// One step of a walk: stay in place, or move to a 4-adjacent tile; the tile
/// stepped onto must be open.
pub open spec fn step_ok(m: DungeonMap, a: (int, int), b: (int, int)) -> bool {
    m.open_at(b.0, b.1) && ((a.0 == b.0 && a.1 == b.1) || (a.0 == b.0 && (a.1 == b.1 + 1 || a.1 + 1
        == b.1)) || (a.1 == b.1 && (a.0 == b.0 + 1 || a.0 + 1 == b.0)))
}

/// `p` is a walk over open tiles of `m` taking 4-connected (or stationary)
/// steps.
pub open spec fn is_path(m: DungeonMap, p: Seq<(int, int)>) -> bool {
    &&& p.len() >= 1
    &&& forall|i: int| 0 <= i < p.len() ==> m.open_at((#[trigger] p[i]).0, p[i].1)
    &&& forall|i: int| 0 <= i < p.len() - 1 ==> step_ok(m, #[trigger] p[i], p[i + 1])
}

/// `b` can be reached from `a` by a 4-connected walk over open tiles.
pub open spec fn reachable(m: DungeonMap, a: (int, int), b: (int, int)) -> bool {
    exists|p: Seq<(int, int)>| #[trigger] is_path(m, p) && p.first() == a && p.last() == b
}

/// An open tile reaches itself.
pub proof fn lemma_reach_refl(m: DungeonMap, a: (int, int))
    requires
        m.open_at(a.0, a.1),
    ensures
        reachable(m, a, a),
{
    let p: Seq<(int, int)> = seq![a];
    assert(is_path(m, p));
}

/// Walks concatenate: reachability is transitive.
pub proof fn lemma_reach_trans(m: DungeonMap, a: (int, int), b: (int, int), c: (int, int))
    requires
        reachable(m, a, b),
        reachable(m, b, c),
    ensures
        reachable(m, a, c),
{
    let p1 = choose|p: Seq<(int, int)>| #[trigger] is_path(m, p) && p.first() == a && p.last() == b;
    let p2 = choose|p: Seq<(int, int)>| #[trigger] is_path(m, p) && p.first() == b && p.last() == c;
    let p = p1 + p2;
    assert forall|i: int| 0 <= i < p.len() implies m.open_at((#[trigger] p[i]).0, p[i].1) by {
        if i < p1.len() {
            assert(p[i] == p1[i]);
        } else {
            assert(p[i] == p2[i - p1.len()]);
        }
    }
    assert forall|i: int| 0 <= i < p.len() - 1 implies step_ok(m, #[trigger] p[i], p[i + 1]) by {
        if i + 1 < p1.len() {
            assert(p[i] == p1[i] && p[i + 1] == p1[i + 1]);
        } else if i + 1 == p1.len() {
            assert(p[i] == p1[i] && p[i + 1] == p2[0]);
            assert(p1[i] == b && p2[0] == b);
        } else {
            assert(p[i] == p2[i - p1.len()] && p[i + 1] == p2[i + 1 - p1.len()]);
        }
    }
    assert(is_path(m, p) && p.first() == a && p.last() == c);
}

/// Opening tiles never breaks a walk: whatever is reachable stays reachable
/// when every open tile of `m1` is still open in `m2`.
pub proof fn lemma_reach_monotone(m1: DungeonMap, m2: DungeonMap, a: (int, int), b: (int, int))
    requires
        reachable(m1, a, b),
        forall|x: int, y: int| #[trigger] m1.open_at(x, y) ==> m2.open_at(x, y),
    ensures
        reachable(m2, a, b),
{
    let p = choose|p: Seq<(int, int)>| #[trigger] is_path(m1, p) && p.first() == a && p.last() == b;
    assert forall|i: int| 0 <= i < p.len() implies m2.open_at((#[trigger] p[i]).0, p[i].1) by {
        assert(m1.open_at(p[i].0, p[i].1));
    }
    assert forall|i: int| 0 <= i < p.len() - 1 implies step_ok(m2, #[trigger] p[i], p[i + 1]) by {
        assert(step_ok(m1, p[i], p[i + 1]));
        assert(m1.open_at(p[i + 1].0, p[i + 1].1));
    }
    assert(is_path(m2, p) && p.first() == a && p.last() == b);
}

/// A horizontal run of open tiles is walkable from either end to the other.
pub proof fn lemma_reach_horizontal(m: DungeonMap, xa: int, xb: int, y: int)
    requires
        forall|x: int|
            (if xa <= xb {
                xa <= x <= xb
            } else {
                xb <= x <= xa
            }) ==> #[trigger] m.open_at(x, y),
    ensures
        reachable(m, (xa, y), (xb, y)),
{
    let n = (if xa <= xb {
        xb - xa
    } else {
        xa - xb
    }) + 1;
    let p = Seq::new(
        n as nat,
        |i: int|
            (
                if xa <= xb {
                    xa + i
                } else {
                    xa - i
                },
                y,
            ),
    );
    assert forall|i: int| 0 <= i < p.len() implies m.open_at((#[trigger] p[i]).0, p[i].1) by {
        assert(m.open_at(p[i].0, y));
    }
    assert(is_path(m, p) && p.first() == (xa, y) && p.last() == (xb, y));
}

/// A vertical run of open tiles is walkable from either end to the other.
pub proof fn lemma_reach_vertical(m: DungeonMap, x: int, ya: int, yb: int)
    requires
        forall|y: int|
            (if ya <= yb {
                ya <= y <= yb
            } else {
                yb <= y <= ya
            }) ==> #[trigger] m.open_at(x, y),
    ensures
        reachable(m, (x, ya), (x, yb)),
{
    let n = (if ya <= yb {
        yb - ya
    } else {
        ya - yb
    }) + 1;
    let p = Seq::new(
        n as nat,
        |i: int|
            (
                x,
                if ya <= yb {
                    ya + i
                } else {
                    ya - i
                },
            ),
    );
    assert forall|i: int| 0 <= i < p.len() implies m.open_at((#[trigger] p[i]).0, p[i].1) by {
        assert(m.open_at(x, p[i].1));
    }
    assert(is_path(m, p) && p.first() == (x, ya) && p.last() == (x, yb));
}

/// Inside a carved room every floor tile is reachable from the room's center:
/// walk along the center's row, then along the target's column.
pub proof fn lemma_room_connected(m: DungeonMap, r: Rect, x: int, y: int)
    requires
        r.x1 + 2 <= r.x2,
        r.y1 + 2 <= r.y2,
        forall|a: int, b: int| rect_interior(r, a, b) ==> #[trigger] m.open_at(a, b),
        rect_interior(r, x, y),
    ensures
        reachable(m, (center_x(r), center_y(r)), (x, y)),
{
    let cx = center_x(r);
    let cy = center_y(r);
    assert(r.x1 < cx < r.x2 && r.y1 < cy < r.y2);
    assert forall|t: int|
        (if cx <= x {
            cx <= t <= x
        } else {
            x <= t <= cx
        }) implies #[trigger] m.open_at(t, cy) by {
        assert(rect_interior(r, t, cy));
    }
    lemma_reach_horizontal(m, cx, x, cy);
    assert forall|t: int|
        (if cy <= y {
            cy <= t <= y
        } else {
            y <= t <= cy
        }) implies #[trigger] m.open_at(x, t) by {
        assert(rect_interior(r, x, t));
    }
    lemma_reach_vertical(m, x, cy, y);
    lemma_reach_trans(m, (cx, cy), (x, cy), (x, y));
}

} // verus!
