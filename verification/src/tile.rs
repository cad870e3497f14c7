//! Per-tile terrain state: wall/floor, sight blocking, and the permanent
//! exploration mark.

use vstd::prelude::*;

verus! {

/// One grid cell's static terrain state. `blocked` means a solid wall for
/// movement; `block_sight` hides what is behind it; `explored` is set once the
/// tile has been seen and is never reset.
#[derive(Clone, Copy, Debug, PartialEq, Eq, Structural)]
pub struct Tile {
    pub blocked: bool,
    pub explored: bool,
    pub block_sight: bool,
}

impl Tile {
    /// A walkable, transparent floor tile.
    pub fn empty() -> (t: Tile)
        ensures
            t == (Tile { blocked: false, explored: false, block_sight: false }),
    {
        Tile { blocked: false, explored: false, block_sight: false }
    }

    /// A solid, sight-blocking wall tile.
    pub fn wall() -> (t: Tile)
        ensures
            t == (Tile { blocked: true, explored: false, block_sight: true }),
    {
        Tile { blocked: true, explored: false, block_sight: true }
    }
}

} // verus!
