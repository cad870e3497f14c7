//! The rectangular tile grid and the single blocking predicate shared by
//! generation-time monster placement and runtime movement.

use vstd::prelude::*;

use crate::object::{at_pos, Object};
use crate::tile::Tile;

verus! {

/// The dungeon's tile grid, indexed `[x][y]` with `x` in `0..width` and `y`
/// in `0..height`. The dimensions are fixed for the session.
pub struct DungeonMap {
    pub width: usize,
    pub height: usize,
    pub tiles: Vec<Vec<Tile>>,
}

impl DungeonMap {
    pub open spec fn spec_width(self) -> int {
        self.width as int
    }

    pub open spec fn spec_height(self) -> int {
        self.height as int
    }

    /// The tile stored at `(x, y)`; meaningful when `(x, y)` is in bounds.
    pub open spec fn tile_at(self, x: int, y: int) -> Tile {
        self.tiles@[x]@[y]
    }

    /// Well-formedness: the grid is rectangular with the stated dimensions,
    /// and both dimensions fit in `i32` so tile coordinates do.
    pub open spec fn wf(self) -> bool {
        &&& self.tiles@.len() == self.width
        &&& forall|x: int|
            0 <= x < self.width ==> (#[trigger] self.tiles@[x])@.len() == self.height
        &&& self.width <= i32::MAX
        &&& self.height <= i32::MAX
    }

    pub open spec fn in_bounds(self, x: int, y: int) -> bool {
        0 <= x < self.spec_width() && 0 <= y < self.spec_height()
    }

    pub open spec fn blocked_at(self, x: int, y: int) -> bool {
        self.tile_at(x, y).blocked
    }

    pub open spec fn explored_at(self, x: int, y: int) -> bool {
        self.tile_at(x, y).explored
    }

    /// `(x, y)` is a walkable in-bounds tile.
    pub open spec fn open_at(self, x: int, y: int) -> bool {
        self.in_bounds(x, y) && !self.blocked_at(x, y)
    }

    /// A grid of the given dimensions, entirely walled.
    pub fn new_walled(width: usize, height: usize) -> (m: DungeonMap)
        requires
            width <= i32::MAX,
            height <= i32::MAX,
        ensures
            m.wf(),
            m.spec_width() == width,
            m.spec_height() == height,
            forall|x: int, y: int| m.in_bounds(x, y) ==> #[trigger] m.tile_at(x, y) == (Tile {
                blocked: true,
                explored: false,
                block_sight: true,
            }),
    {
        let mut tiles: Vec<Vec<Tile>> = Vec::new();
        let mut x: usize = 0;
        while x < width
            invariant
                x <= width,
                tiles@.len() == x,
                forall|i: int|
                    0 <= i < x ==> (#[trigger] tiles@[i])@.len() == height,
                forall|i: int, j: int|
                    0 <= i < x && 0 <= j < height ==> (#[trigger] tiles@[i]@[j]) == (Tile {
                        blocked: true,
                        explored: false,
                        block_sight: true,
                    }),
            decreases width - x,
        {
            let mut column: Vec<Tile> = Vec::new();
            let mut y: usize = 0;
            while y < height
                invariant
                    y <= height,
                    column@.len() == y,
                    forall|j: int|
                        0 <= j < y ==> (#[trigger] column@[j]) == (Tile {
                            blocked: true,
                            explored: false,
                            block_sight: true,
                        }),
                decreases height - y,
            {
                column.push(Tile::wall());
                y = y + 1;
            }
            tiles.push(column);
            x = x + 1;
        }
        DungeonMap { width, height, tiles }
    }

    pub fn width(&self) -> (w: usize)
        ensures
            w == self.spec_width(),
    {
        self.width
    }

    pub fn height(&self) -> (h: usize)
        ensures
            h == self.spec_height(),
    {
        self.height
    }

    /// Read the tile at `(x, y)`.
    pub fn tile(&self, x: i32, y: i32) -> (t: Tile)
        requires
            self.wf(),
            self.in_bounds(x as int, y as int),
        ensures
            t == self.tile_at(x as int, y as int),
    {
        self.tiles[x as usize][y as usize]
    }

    /// Replace the tile at `(x, y)`; every other tile is unchanged.
    fn set_tile(&mut self, x: i32, y: i32, t: Tile)
        requires
            old(self).wf(),
            old(self).in_bounds(x as int, y as int),
        ensures
            final(self).wf(),
            final(self).spec_width() == old(self).spec_width(),
            final(self).spec_height() == old(self).spec_height(),
            forall|a: int, b: int|
                final(self).in_bounds(a, b) ==> #[trigger] final(self).tile_at(a, b) == (if a
                    == x as int && b == y as int {
                    t
                } else {
                    old(self).tile_at(a, b)
                }),
    {
        let xu: usize = x as usize;
        let yu: usize = y as usize;
        let column: &mut Vec<Tile> = &mut self.tiles[xu];
        column.set(yu, t);
    }

    /// Turn the tile at `(x, y)` into a fresh floor tile (used only while the
    /// dungeon is generated, before anything is explored).
    pub(crate) fn carve_floor(&mut self, x: i32, y: i32)
        requires
            old(self).wf(),
            old(self).in_bounds(x as int, y as int),
        ensures
            final(self).wf(),
            final(self).spec_width() == old(self).spec_width(),
            final(self).spec_height() == old(self).spec_height(),
            forall|a: int, b: int|
                final(self).in_bounds(a, b) ==> #[trigger] final(self).tile_at(a, b) == (if a
                    == x as int && b == y as int {
                    Tile { blocked: false, explored: false, block_sight: false }
                } else {
                    old(self).tile_at(a, b)
                }),
    {
        self.set_tile(x, y, Tile::empty());
    }

    /// Set the permanent exploration mark on `(x, y)`. The terrain fields are
    /// untouched and the mark is never cleared, so exploration is monotonic.
    pub(crate) fn mark_explored(&mut self, x: i32, y: i32)
        requires
            old(self).wf(),
            old(self).in_bounds(x as int, y as int),
        ensures
            final(self).wf(),
            final(self).spec_width() == old(self).spec_width(),
            final(self).spec_height() == old(self).spec_height(),
            forall|a: int, b: int|
                final(self).in_bounds(a, b) ==> #[trigger] final(self).tile_at(a, b) == (if a
                    == x as int && b == y as int {
                    Tile { explored: true, ..old(self).tile_at(a, b) }
                } else {
                    old(self).tile_at(a, b)
                }),
    {
        let mut t = self.tile(x, y);
        t.explored = true;
        self.set_tile(x, y, t);
    }
}

/// A blocking actor in `s` stands on tile `(x, y)`.
pub open spec fn occupied(s: Seq<Object>, x: int, y: int) -> bool {
    exists|i: int| 0 <= i < s.len() && (#[trigger] s[i]).blocks && at_pos(s[i], x, y)
}

/// The single blocking predicate: a tile is blocked when the terrain is solid
/// or a `blocks = true` actor stands on it.
pub open spec fn spec_is_blocked(m: DungeonMap, s: Seq<Object>, x: int, y: int) -> bool {
    m.blocked_at(x, y) || occupied(s, x, y)
}

/// Whether `(x, y)` is blocked, by terrain or by a blocking actor. This is
/// the sole authority on collisions, shared by monster placement at
/// generation time and by all runtime movement.
pub fn is_blocked(x: i32, y: i32, map: &DungeonMap, objects: &Vec<Object>) -> (r: bool)
    requires
        map.wf(),
        map.in_bounds(x as int, y as int),
    ensures
        r == spec_is_blocked(*map, objects@, x as int, y as int),
{
    if map.tile(x, y).blocked {
        return true;
    }
    let mut i: usize = 0;
    while i < objects.len()
        invariant
            i <= objects@.len(),
            forall|k: int|
                0 <= k < i ==> !((#[trigger] objects@[k]).blocks && at_pos(
                    objects@[k],
                    x as int,
                    y as int,
                )),
        decreases objects@.len() - i,
    {
        let o = &objects[i];
        if o.blocks && o.x == x && o.y == y {
            return true;
        }
        i = i + 1;
    }
    false
}

} // verus!
