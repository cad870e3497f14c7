//! The mutable record for every game entity (player and monsters): position,
//! glyph and colour, combat stats, AI tag, alive flag.

use vstd::prelude::*;

verus! {

/// Outcome of feeding one input to the turn scheduler.
#[derive(Clone, Copy, Debug, PartialEq, Eq, Structural)]
pub enum PlayerAction {
    TookTurn,
    DidntTakeTurn,
    Exit,
}

/// Combat stats of an actor that can take part in melee.
#[derive(Clone, Copy, Debug, PartialEq, Eq, Structural)]
pub struct Fighter {
    pub max_hp: i32,
    pub hp: i32,
    pub defense: i32,
    pub power: i32,
}

/// Closed set of monster behaviours. `Basic` approaches the player while out
/// of melee range and attacks once adjacent.
#[derive(Clone, Copy, Debug, PartialEq, Eq, Structural)]
pub enum Ai {
    Basic,
}

/// An RGB display colour. Rendering is outside this crate; the colour is
/// carried as plain data for the presentation layer.
#[derive(Clone, Copy, Debug, PartialEq, Eq, Structural)]
pub struct Colour {
    pub r: u8,
    pub g: u8,
    pub b: u8,
}

/// One game entity. Actors are never removed: death is recorded by
/// `alive = false` and `blocks = false`, and the record stays in the actor
/// collection.
#[derive(Clone, Debug)]
pub struct Object {
    pub x: i32,
    pub y: i32,
    pub character: char,
    pub colour: Colour,
    pub name: String,
    pub blocks: bool,
    pub alive: bool,
    pub fighter: Option<Fighter>,
    pub ai: Option<Ai>,
}

/// `o` stands on tile `(x, y)`.
pub open spec fn at_pos(o: Object, x: int, y: int) -> bool {
    o.x == x && o.y == y
}

/// At most one blocking actor stands on any tile: no two distinct blocking
/// actors share a position.
pub open spec fn no_blocking_overlap(s: Seq<Object>) -> bool {
    forall|i: int, j: int|
        0 <= i < j < s.len() && (#[trigger] s[i]).blocks && (#[trigger] s[j]).blocks ==> !(s[i].x
            == s[j].x && s[i].y == s[j].y)
}

/// Squared Euclidean distance between `(ax, ay)` and `(bx, by)`.
pub open spec fn dist_sq(ax: int, ay: int, bx: int, by: int) -> int {
    (bx - ax) * (bx - ax) + (by - ay) * (by - ay)
}

impl Object {
    /// A fresh entity at `(x, y)`: not yet alive, no combat stats, no AI.
    pub fn new(x: i32, y: i32, character: char, colour: Colour, name: &str, blocks: bool) -> (
        o: Object)
        ensures
            o.x == x,
            o.y == y,
            o.character == character,
            o.colour == colour,
            o.name@ == name@,
            o.blocks == blocks,
            o.alive == false,
            o.fighter is None,
            o.ai is None,
    {
        Object {
            x,
            y,
            character,
            colour,
            name: name.to_owned(),
            blocks,
            alive: false,
            fighter: None,
            ai: None,
        }
    }

    /// Teleports the entity to `(x, y)`; every other field is unchanged.
    pub fn set_pos(&mut self, x: i32, y: i32)
        ensures
            *final(self) == (Object { x, y, ..*old(self) }),
    {
        self.x = x;
        self.y = y;
    }

    /// The entity's current tile.
    pub fn pos(&self) -> (p: (i32, i32))
        ensures
            p.0 == self.x,
            p.1 == self.y,
    {
        (self.x, self.y)
    }

    /// Squared Euclidean distance to another entity, kept in integers so the
    /// comparison against a range threshold is exact.
    pub fn distance_to(&self, other: &Object) -> (d2: i64)
        requires
            dist_sq(self.x as int, self.y as int, other.x as int, other.y as int) <= i64::MAX,
        ensures
            d2 == dist_sq(self.x as int, self.y as int, other.x as int, other.y as int),
    {
        let dx: i64 = other.x as i64 - self.x as i64;
        let dy: i64 = other.y as i64 - self.y as i64;
        proof {
            assert(dx * dx >= 0 && dy * dy >= 0) by (nonlinear_arith);
        }
        dx * dx + dy * dy
    }
}

} // verus!
