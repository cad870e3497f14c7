//! The procedural dungeon generator: room placement with inclusive overlap
//! rejection, L-shaped tunnel carving between consecutive rooms, monster
//! spawning, and the connectivity guarantee that every accepted room's floor
//! is reachable from the player's spawn.

use vstd::prelude::*;

use crate::grid::{is_blocked, occupied, DungeonMap};
use crate::object::{at_pos, no_blocking_overlap, Ai, Colour, Fighter, Object};
use crate::reach::{
    lemma_reach_horizontal, lemma_reach_monotone, lemma_reach_refl, lemma_reach_trans,
    lemma_reach_vertical, lemma_room_connected, reachable,
};
use crate::rect::{
    center_x, center_y, lemma_center_in_interior, rect_interior, rects_overlap, Rect,
};
use crate::rng::{rng_coin, rng_from_seed, rng_range};
use crate::tile::Tile;

verus! {

/// `v` lies in the closed interval spanned by `lo` and `hi` (in either
/// order).
pub open spec fn between(lo: int, hi: int, v: int) -> bool {
    if lo <= hi {
        lo <= v <= hi
    } else {
        hi <= v <= lo
    }
}

/// A room footprint that fits the grid with its enclosing walls, leaving the
/// grid border intact, and is wide and tall enough to have floor and a
/// center on that floor.
pub open spec fn room_in_grid(r: Rect, w: int, h: int) -> bool {
    &&& 0 <= r.x1
    &&& r.x1 + 2 <= r.x2
    &&& r.x2 <= w - 1
    &&& 0 <= r.y1
    &&& r.y1 + 2 <= r.y2
    &&& r.y2 <= h - 1
}

/// What holds of every monster the generator spawns: tagged with the basic
/// AI, alive and blocking, carrying one of the two built-in fighter
/// archetypes, and standing on an open tile of the grid.
pub open spec fn is_spawned_monster(o: Object, m: DungeonMap) -> bool {
    &&& o.ai == Some(Ai::Basic)
    &&& o.blocks
    &&& o.alive
    &&& (o.fighter == Some(Fighter { max_hp: 10, hp: 10, defense: 0, power: 3 }) || o.fighter
        == Some(Fighter { max_hp: 16, hp: 16, defense: 1, power: 4 }))
    &&& m.open_at(o.x as int, o.y as int)
}

/// `(x, y)` lies on the carved floor of one of the accepted rooms.
pub open spec fn in_some_room(rooms: Seq<Rect>, x: int, y: int) -> bool {
    exists|j: int| 0 <= j < rooms.len() && rect_interior(#[trigger] rooms[j], x, y)
}

/// `(x, y)` lies in the bounding box of the centers of two consecutively
/// accepted rooms: the region the L-tunnel joining them may carve through.
pub open spec fn in_tunnel_zone(rooms: Seq<Rect>, x: int, y: int) -> bool {
    exists|i: int|
        0 <= i < rooms.len() - 1 && between(center_x(#[trigger] rooms[i]), center_x(rooms[i + 1]), x)
            && between(center_y(rooms[i]), center_y(rooms[i + 1]), y)
}

/// Accepting one more room keeps every earlier corridor-zone claim.
proof fn lemma_in_tunnel_zone_push(rooms: Seq<Rect>, r: Rect, x: int, y: int)
    requires
        in_tunnel_zone(rooms, x, y),
    ensures
        in_tunnel_zone(rooms.push(r), x, y),
{
    let i = choose|i: int|
        0 <= i < rooms.len() - 1 && between(center_x(#[trigger] rooms[i]), center_x(rooms[i + 1]), x)
            && between(center_y(rooms[i]), center_y(rooms[i + 1]), y);
    assert(rooms.push(r)[i] == rooms[i] && rooms.push(r)[i + 1] == rooms[i + 1]);
    assert(between(center_x(rooms.push(r)[i]), center_x(rooms.push(r)[i + 1]), x));
}

/// The actor at `player` is the only blocking actor in `s` (the state a
/// session starts generation from: one player, perhaps non-blocking
/// bookkeeping records).
pub open spec fn player_only_blocker(s: Seq<Object>, player: int) -> bool {
    forall|i: int| 0 <= i < s.len() && i != player ==> !(#[trigger] s[i]).blocks
}

/// Accepting one more room keeps every earlier room's floor claim.
proof fn lemma_in_some_room_push(rooms: Seq<Rect>, r: Rect, x: int, y: int)
    requires
        in_some_room(rooms, x, y),
    ensures
        in_some_room(rooms.push(r), x, y),
{
    let j = choose|j: int| 0 <= j < rooms.len() && rect_interior(#[trigger] rooms[j], x, y);
    assert(rect_interior(rooms.push(r)[j], x, y));
}

/// A collection whose only blocking actor is the player trivially has no
/// two blocking actors sharing a tile.
proof fn lemma_player_only_no_overlap(s: Seq<Object>, player: int)
    requires
        player_only_blocker(s, player),
    ensures
        no_blocking_overlap(s),
{
}

/// Carve the strict interior of `room` to floor; every other tile is
/// unchanged.
fn create_room(room: Rect, map: &mut DungeonMap)
    requires
        old(map).wf(),
        room.x1 <= room.x2,
        room.y1 <= room.y2,
        0 <= room.x1,
        room.x2 <= old(map).spec_width() - 1,
        0 <= room.y1,
        room.y2 <= old(map).spec_height() - 1,
    ensures
        final(map).wf(),
        final(map).spec_width() == old(map).spec_width(),
        final(map).spec_height() == old(map).spec_height(),
        forall|a: int, b: int|
            final(map).in_bounds(a, b) ==> #[trigger] final(map).tile_at(a, b) == (if rect_interior(
                room,
                a,
                b,
            ) {
                Tile { blocked: false, explored: false, block_sight: false }
            } else {
                old(map).tile_at(a, b)
            }),
        forall|a: int, b: int| #[trigger] old(map).open_at(a, b) ==> final(map).open_at(a, b),
        forall|a: int, b: int|
            #[trigger] rect_interior(room, a, b) ==> final(map).open_at(a, b),
        forall|a: int, b: int|
            #[trigger] final(map).open_at(a, b) ==> old(map).open_at(a, b) || rect_interior(
                room,
                a,
                b,
            ),
        forall|a: int, b: int|
            final(map).in_bounds(a, b) && #[trigger] final(map).explored_at(a, b) ==> old(
                map,
            ).explored_at(a, b),
{
    let mut x: i32 = room.x1 + 1;
    while x < room.x2
        invariant
            map.wf(),
            map.spec_width() == old(map).spec_width(),
            map.spec_height() == old(map).spec_height(),
            room.x1 + 1 <= x <= room.x2 || x == room.x1 + 1,
            room.x2 <= map.spec_width() - 1,
            room.y1 <= room.y2,
            0 <= room.x1,
            0 <= room.y1,
            room.y2 <= map.spec_height() - 1,
            forall|a: int, b: int|
                map.in_bounds(a, b) ==> #[trigger] map.tile_at(a, b) == (if rect_interior(
                    room,
                    a,
                    b,
                ) && a < x {
                    Tile { blocked: false, explored: false, block_sight: false }
                } else {
                    old(map).tile_at(a, b)
                }),
        decreases room.x2 - x,
    {
        let mut y: i32 = room.y1 + 1;
        while y < room.y2
            invariant
                map.wf(),
                map.spec_width() == old(map).spec_width(),
                map.spec_height() == old(map).spec_height(),
                room.x1 < x < room.x2,
                room.y1 + 1 <= y <= room.y2 || y == room.y1 + 1,
                room.x2 <= map.spec_width() - 1,
                0 <= room.x1,
                0 <= room.y1,
                room.y2 <= map.spec_height() - 1,
                forall|a: int, b: int|
                    map.in_bounds(a, b) ==> #[trigger] map.tile_at(a, b) == (if rect_interior(
                        room,
                        a,
                        b,
                    ) && (a < x || (a == x && b < y)) {
                        Tile { blocked: false, explored: false, block_sight: false }
                    } else {
                        old(map).tile_at(a, b)
                    }),
            decreases room.y2 - y,
        {
            map.carve_floor(x, y);
            y = y + 1;
        }
        x = x + 1;
    }
}

/// Carve a horizontal tunnel at row `y` covering the closed span between
/// `x1` and `x2`; every other tile is unchanged.
fn create_h_tunnel(x1: i32, x2: i32, y: i32, map: &mut DungeonMap)
    requires
        old(map).wf(),
        0 <= x1 <= old(map).spec_width() - 1,
        0 <= x2 <= old(map).spec_width() - 1,
        0 <= y <= old(map).spec_height() - 1,
    ensures
        final(map).wf(),
        final(map).spec_width() == old(map).spec_width(),
        final(map).spec_height() == old(map).spec_height(),
        forall|a: int, b: int|
            final(map).in_bounds(a, b) ==> #[trigger] final(map).tile_at(a, b) == (if b == y
                && between(x1 as int, x2 as int, a) {
                Tile { blocked: false, explored: false, block_sight: false }
            } else {
                old(map).tile_at(a, b)
            }),
        forall|a: int, b: int| #[trigger] old(map).open_at(a, b) ==> final(map).open_at(a, b),
        forall|a: int, b: int|
            final(map).in_bounds(a, b) && #[trigger] final(map).explored_at(a, b) ==> old(
                map,
            ).explored_at(a, b),
{
    let lo: i32 = if x1 < x2 {
        x1
    } else {
        x2
    };
    let hi: i32 = if x1 < x2 {
        x2
    } else {
        x1
    };
    let mut x: i32 = lo;
    while x < hi + 1
        invariant
            map.wf(),
            map.spec_width() == old(map).spec_width(),
            map.spec_height() == old(map).spec_height(),
            lo <= x <= hi + 1,
            0 <= lo <= hi <= map.spec_width() - 1,
            0 <= y <= map.spec_height() - 1,
            between(x1 as int, x2 as int, lo as int) && between(x1 as int, x2 as int, hi as int),
            forall|v: int| between(x1 as int, x2 as int, v) <==> lo <= v <= hi,
            forall|a: int, b: int|
                map.in_bounds(a, b) ==> #[trigger] map.tile_at(a, b) == (if b == y && lo <= a
                    < x {
                    Tile { blocked: false, explored: false, block_sight: false }
                } else {
                    old(map).tile_at(a, b)
                }),
        decreases hi + 1 - x,
    {
        map.carve_floor(x, y);
        x = x + 1;
    }
}

/// Carve a vertical tunnel at column `x` covering the closed span between
/// `y1` and `y2`; every other tile is unchanged.
fn create_v_tunnel(y1: i32, y2: i32, x: i32, map: &mut DungeonMap)
    requires
        old(map).wf(),
        0 <= y1 <= old(map).spec_height() - 1,
        0 <= y2 <= old(map).spec_height() - 1,
        0 <= x <= old(map).spec_width() - 1,
    ensures
        final(map).wf(),
        final(map).spec_width() == old(map).spec_width(),
        final(map).spec_height() == old(map).spec_height(),
        forall|a: int, b: int|
            final(map).in_bounds(a, b) ==> #[trigger] final(map).tile_at(a, b) == (if a == x
                && between(y1 as int, y2 as int, b) {
                Tile { blocked: false, explored: false, block_sight: false }
            } else {
                old(map).tile_at(a, b)
            }),
        forall|a: int, b: int| #[trigger] old(map).open_at(a, b) ==> final(map).open_at(a, b),
        forall|a: int, b: int|
            final(map).in_bounds(a, b) && #[trigger] final(map).explored_at(a, b) ==> old(
                map,
            ).explored_at(a, b),
{
    let lo: i32 = if y1 < y2 {
        y1
    } else {
        y2
    };
    let hi: i32 = if y1 < y2 {
        y2
    } else {
        y1
    };
    let mut y: i32 = lo;
    while y < hi + 1
        invariant
            map.wf(),
            map.spec_width() == old(map).spec_width(),
            map.spec_height() == old(map).spec_height(),
            lo <= y <= hi + 1,
            0 <= lo <= hi <= map.spec_height() - 1,
            0 <= x <= map.spec_width() - 1,
            between(y1 as int, y2 as int, lo as int) && between(y1 as int, y2 as int, hi as int),
            forall|v: int| between(y1 as int, y2 as int, v) <==> lo <= v <= hi,
            forall|a: int, b: int|
                map.in_bounds(a, b) ==> #[trigger] map.tile_at(a, b) == (if a == x && lo <= b
                    < y {
                    Tile { blocked: false, explored: false, block_sight: false }
                } else {
                    old(map).tile_at(a, b)
                }),
        decreases hi + 1 - y,
    {
        map.carve_floor(x, y);
        y = y + 1;
    }
}

/// Spawn `0..=max_room_monsters` monsters at random floor positions inside
/// `room`, skipping positions already blocked. Existing actors are never
/// touched; every appended actor satisfies [`is_spawned_monster`] and stands
/// strictly inside `room`.
fn place_objects(
    room: Rect,
    map: &DungeonMap,
    objects: &mut Vec<Object>,
    max_room_monsters: i32,
    rng: &mut rand::rngs::StdRng,
)
    requires
        map.wf(),
        room_in_grid(room, map.spec_width(), map.spec_height()),
        0 <= max_room_monsters < i32::MAX,
    ensures
        old(objects)@.len() <= final(objects)@.len() <= old(objects)@.len() + max_room_monsters,
        forall|i: int|
            0 <= i < old(objects)@.len() ==> #[trigger] final(objects)@[i] == old(objects)@[i],
        forall|i: int|
            old(objects)@.len() <= i < final(objects)@.len() ==> is_spawned_monster(
                #[trigger] final(objects)@[i],
                *map,
            ) && rect_interior(room, final(objects)@[i].x as int, final(objects)@[i].y as int),
        // monsters spawn only on tiles free of blocking actors, so the
        // one-blocking-actor-per-tile invariant survives spawning
        no_blocking_overlap(old(objects)@) ==> no_blocking_overlap(final(objects)@),
{
    let num_monsters = rng_range(rng, 0, max_room_monsters + 1);
    let mut k: i32 = 0;
    while k < num_monsters
        invariant
            map.wf(),
            room_in_grid(room, map.spec_width(), map.spec_height()),
            0 <= k <= num_monsters,
            num_monsters <= max_room_monsters,
            objects@.len() <= old(objects)@.len() + k,
            objects@.len() >= old(objects)@.len(),
            forall|i: int|
                0 <= i < old(objects)@.len() ==> #[trigger] objects@[i] == old(objects)@[i],
            forall|i: int|
                old(objects)@.len() <= i < objects@.len() ==> is_spawned_monster(
                    #[trigger] objects@[i],
                    *map,
                ) && rect_interior(room, objects@[i].x as int, objects@[i].y as int),
            no_blocking_overlap(old(objects)@) ==> no_blocking_overlap(objects@),
        decreases num_monsters - k,
    {
        let x = rng_range(rng, room.x1 + 1, room.x2);
        let y = rng_range(rng, room.y1 + 1, room.y2);
        if !is_blocked(x, y, map, objects) {
            let ghost pre = objects@;
            let mut monster = if rng_range(rng, 0, 100) < 80 {
                let mut orc = Object::new(x, y, 'o', Colour { r: 63, g: 127, b: 63 }, "orc", true);
                orc.fighter = Some(Fighter { max_hp: 10, hp: 10, defense: 0, power: 3 });
                orc.ai = Some(Ai::Basic);
                orc
            } else {
                let mut troll = Object::new(
                    x,
                    y,
                    'T',
                    Colour { r: 0, g: 127, b: 0 },
                    "troll",
                    true,
                );
                troll.fighter = Some(Fighter { max_hp: 16, hp: 16, defense: 1, power: 4 });
                troll.ai = Some(Ai::Basic);
                troll
            };
            monster.alive = true;
            objects.push(monster);
            proof {
                if no_blocking_overlap(pre) {
                    let s = objects@;
                    let n = s.len() - 1;
                    assert forall|i: int, j: int|
                        0 <= i < j < s.len() && (#[trigger] s[i]).blocks && (#[trigger] s[j]).blocks
                            implies !(s[i].x == s[j].x && s[i].y == s[j].y) by {
                        if j == n {
                            assert(s[i] == pre[i]);
                            if s[i].x == s[j].x && s[i].y == s[j].y {
                                assert(pre[i].blocks && at_pos(pre[i], x as int, y as int));
                                assert(occupied(pre, x as int, y as int));
                            }
                        } else {
                            assert(s[i] == pre[i] && s[j] == pre[j]);
                        }
                    }
                }
            }
        }
        k = k + 1;
    }
}

/// Join two rooms with an L-shaped tunnel between their centers; a coin flip
/// decides whether the horizontal or the vertical leg is carved first. Open
/// tiles stay open, nothing becomes explored, and afterwards the two centers
/// are mutually reachable.
fn connect_rooms(prev: Rect, new_room: Rect, map: &mut DungeonMap, rng: &mut rand::rngs::StdRng)
    requires
        old(map).wf(),
        old(map).spec_width() <= 0x3fff_ffff,
        old(map).spec_height() <= 0x3fff_ffff,
        room_in_grid(prev, old(map).spec_width(), old(map).spec_height()),
        room_in_grid(new_room, old(map).spec_width(), old(map).spec_height()),
    ensures
        final(map).wf(),
        final(map).spec_width() == old(map).spec_width(),
        final(map).spec_height() == old(map).spec_height(),
        forall|a: int, b: int| #[trigger] old(map).open_at(a, b) ==> final(map).open_at(a, b),
        // nothing opens outside the bounding box of the two centers
        forall|a: int, b: int|
            #[trigger] final(map).open_at(a, b) ==> old(map).open_at(a, b) || (between(
                center_x(prev),
                center_x(new_room),
                a,
            ) && between(center_y(prev), center_y(new_room), b)),
        forall|a: int, b: int|
            final(map).in_bounds(a, b) && #[trigger] final(map).explored_at(a, b) ==> old(
                map,
            ).explored_at(a, b),
        reachable(
            *final(map),
            (center_x(prev), center_y(prev)),
            (center_x(new_room), center_y(new_room)),
        ),
{
    proof {
        lemma_center_in_interior(prev);
        lemma_center_in_interior(new_room);
    }
    let (prev_x, prev_y) = prev.center();
    let (new_x, new_y) = new_room.center();
    let ghost pc: (int, int) = (prev_x as int, prev_y as int);
    let ghost nc: (int, int) = (new_x as int, new_y as int);
    if rng_coin(rng) {
        create_h_tunnel(prev_x, new_x, prev_y, map);
        let ghost m2 = *map;
        create_v_tunnel(prev_y, new_y, new_x, map);
        proof {
            assert forall|t: int|
                between(prev_x as int, new_x as int, t) implies map.open_at(t, prev_y as int) by {
                assert(m2.in_bounds(t, prev_y as int));
                assert(m2.open_at(t, prev_y as int));
            }
            lemma_reach_horizontal(*map, prev_x as int, new_x as int, prev_y as int);
            assert forall|t: int|
                between(prev_y as int, new_y as int, t) implies map.open_at(new_x as int, t) by {
                assert(map.in_bounds(new_x as int, t));
            }
            lemma_reach_vertical(*map, new_x as int, prev_y as int, new_y as int);
            lemma_reach_trans(*map, pc, (new_x as int, prev_y as int), nc);
        }
    } else {
        create_v_tunnel(prev_y, new_y, prev_x, map);
        let ghost m2 = *map;
        create_h_tunnel(prev_x, new_x, new_y, map);
        proof {
            assert forall|t: int|
                between(prev_y as int, new_y as int, t) implies map.open_at(prev_x as int, t) by {
                assert(m2.in_bounds(prev_x as int, t));
                assert(m2.open_at(prev_x as int, t));
            }
            lemma_reach_vertical(*map, prev_x as int, prev_y as int, new_y as int);
            assert forall|t: int|
                between(prev_x as int, new_x as int, t) implies map.open_at(t, new_y as int) by {
                assert(map.in_bounds(t, new_y as int));
            }
            lemma_reach_horizontal(*map, prev_x as int, new_x as int, new_y as int);
            lemma_reach_trans(*map, pc, (prev_x as int, new_y as int), nc);
        }
    }
}

/// Build the dungeon. `max_rooms` placements are attempted with sizes drawn
/// from `room_min_size..=room_max_size`; a candidate that overlaps an
/// accepted room (inclusive test) is silently discarded and not retried, so
/// fewer rooms than `max_rooms` — even none, leaving an all-wall grid — is an
/// accepted outcome. The first accepted room receives the player at its
/// center; every later room is joined to the immediately previous one by an
/// L-shaped tunnel whose carve order a coin flip decides, which chains all
/// rooms to the player's spawn. Each accepted room also spawns up to
/// `max_room_monsters` monsters on free floor tiles inside it.
#[verifier::rlimit(100)]
pub fn make_map(
    map_width: i32,
    map_height: i32,
    room_min_size: i32,
    room_max_size: i32,
    max_rooms: i32,
    max_room_monsters: i32,
    objects: &mut Vec<Object>,
    player: usize,
    seed: u64,
) -> (result: (DungeonMap, Vec<Rect>))
    requires
        2 <= room_min_size <= room_max_size,
        room_max_size < map_width <= 0x3fff_ffff,
        room_max_size < map_height <= 0x3fff_ffff,
        0 <= max_rooms,
        0 <= max_room_monsters < i32::MAX,
        player < old(objects)@.len(),
    ensures
        result.0.wf(),
        result.0.spec_width() == map_width as int,
        result.0.spec_height() == map_height as int,
        result.1@.len() <= max_rooms,
        // the first candidate can never collide, so one attempt suffices for one room
        max_rooms >= 1 ==> result.1@.len() >= 1,
        forall|i: int| 0 <= i < result.1@.len() ==> room_in_grid(#[trigger] result.1@[i], map_width as int, map_height as int),
        // accepted rooms never overlap, not even on a shared boundary
        forall|i: int, j: int|
            0 <= i < result.1@.len() && 0 <= j < result.1@.len() && i != j ==> !rects_overlap(
                #[trigger] result.1@[i],
                #[trigger] result.1@[j],
            ),
        // every room's floor is carved open
        forall|i: int, x: int, y: int|
            0 <= i < result.1@.len() && #[trigger] rect_interior(result.1@[i], x, y)
                ==> result.0.open_at(x, y),
        // nothing is carved on or outside the grid's one-tile rim: every open
        // tile lies strictly inside the border, which therefore stays walled
        forall|x: int, y: int|
            #[trigger] result.0.open_at(x, y) ==> 1 <= x <= map_width - 2 && 1 <= y <= map_height
                - 2,
        // every tile away from the rooms and the corridors between consecutive
        // room centers is still the wall it started as
        forall|x: int, y: int|
            #[trigger] result.0.open_at(x, y) ==> in_some_room(result.1@, x, y) || in_tunnel_zone(
                result.1@,
                x,
                y,
            ),
        // every room's floor is reachable from the player's spawn
        result.1@.len() > 0 ==> forall|i: int, x: int, y: int|
            0 <= i < result.1@.len() && #[trigger] rect_interior(result.1@[i], x, y) ==> reachable(
                result.0,
                (center_x(result.1@[0]), center_y(result.1@[0])),
                (x, y),
            ),
        // the player stands at the first accepted room's center, otherwise untouched
        result.1@.len() > 0 ==> final(objects)@[player as int] == (Object {
            x: center_x(result.1@[0]) as i32,
            y: center_y(result.1@[0]) as i32,
            ..old(objects)@[player as int]
        }),
        // a fully rejected generation changes nothing and leaves an all-wall grid
        result.1@.len() == 0 ==> final(objects)@ == old(objects)@,
        result.1@.len() == 0 ==> forall|x: int, y: int|
            result.0.in_bounds(x, y) ==> #[trigger] result.0.blocked_at(x, y),
        // existing actors other than the player are never touched; monsters are appended
        final(objects)@.len() >= old(objects)@.len(),
        forall|i: int|
            0 <= i < old(objects)@.len() && i != player ==> #[trigger] final(objects)@[i] == old(
                objects,
            )@[i],
        forall|i: int|
            old(objects)@.len() <= i < final(objects)@.len() ==> is_spawned_monster(
                #[trigger] final(objects)@[i],
                result.0,
            ),
        // every spawned monster stands on the floor of an accepted room
        forall|i: int|
            old(objects)@.len() <= i < final(objects)@.len() ==> in_some_room(
                result.1@,
                (#[trigger] final(objects)@[i]).x as int,
                final(objects)@[i].y as int,
            ),
        // when the player starts as the only blocking actor, no two blocking
        // actors ever share a tile: monsters spawn only on free tiles, after
        // the player has taken the first room's center
        player_only_blocker(old(objects)@, player as int) ==> no_blocking_overlap(
            final(objects)@,
        ),
        // nothing is explored yet
        forall|x: int, y: int|
            result.0.in_bounds(x, y) ==> !(#[trigger] result.0.explored_at(x, y)),
{
    let ghost w_int: int = map_width as int;
    let ghost h_int: int = map_height as int;
    let mut map = DungeonMap::new_walled(map_width as usize, map_height as usize);
    let mut rooms: Vec<Rect> = Vec::new();
    let mut rng = rng_from_seed(seed);
    let ghost mut spawn: (int, int) = (0, 0);
    let mut attempt: i32 = 0;
    while attempt < max_rooms
        invariant
            w_int == map_width as int,
            h_int == map_height as int,
            2 <= room_min_size <= room_max_size,
            room_max_size < map_width <= 0x3fff_ffff,
            room_max_size < map_height <= 0x3fff_ffff,
            0 <= max_room_monsters < i32::MAX,
            player < old(objects)@.len(),
            0 <= attempt <= max_rooms,
            rooms@.len() <= attempt,
            attempt > 0 ==> rooms@.len() >= 1,
            map.wf(),
            map.spec_width() == w_int,
            map.spec_height() == h_int,
            objects@.len() >= old(objects)@.len(),
            forall|i: int|
                0 <= i < old(objects)@.len() && i != player ==> #[trigger] objects@[i] == old(
                    objects,
                )@[i],
            forall|i: int|
                old(objects)@.len() <= i < objects@.len() ==> is_spawned_monster(
                    #[trigger] objects@[i],
                    map,
                ),
            forall|i: int|
                old(objects)@.len() <= i < objects@.len() ==> in_some_room(
                    rooms@,
                    (#[trigger] objects@[i]).x as int,
                    objects@[i].y as int,
                ),
            player_only_blocker(old(objects)@, player as int) ==> no_blocking_overlap(objects@),
            forall|a: int, b: int|
                #[trigger] map.open_at(a, b) ==> 1 <= a <= w_int - 2 && 1 <= b <= h_int - 2,
            forall|a: int, b: int|
                #[trigger] map.open_at(a, b) ==> in_some_room(rooms@, a, b) || in_tunnel_zone(
                    rooms@,
                    a,
                    b,
                ),
            rooms@.len() == 0 ==> objects@ == old(objects)@,
            rooms@.len() == 0 ==> forall|x: int, y: int|
                map.in_bounds(x, y) ==> #[trigger] map.blocked_at(x, y),
            rooms@.len() > 0 ==> spawn == (center_x(rooms@[0]), center_y(rooms@[0])),
            rooms@.len() > 0 ==> objects@[player as int] == (Object {
                x: center_x(rooms@[0]) as i32,
                y: center_y(rooms@[0]) as i32,
                ..old(objects)@[player as int]
            }),
            forall|i: int| 0 <= i < rooms@.len() ==> room_in_grid(#[trigger] rooms@[i], w_int, h_int),
            forall|i: int, j: int|
                0 <= i < rooms@.len() && 0 <= j < rooms@.len() && i != j ==> !rects_overlap(
                    #[trigger] rooms@[i],
                    #[trigger] rooms@[j],
                ),
            forall|i: int, x: int, y: int|
                0 <= i < rooms@.len() && #[trigger] rect_interior(rooms@[i], x, y) ==> map.open_at(
                    x,
                    y,
                ),
            forall|i: int|
                0 <= i < rooms@.len() ==> reachable(
                    map,
                    spawn,
                    (center_x(#[trigger] rooms@[i]), center_y(rooms@[i])),
                ),
            forall|x: int, y: int| map.in_bounds(x, y) ==> !(#[trigger] map.explored_at(x, y)),
        decreases max_rooms - attempt,
    {
        let w = rng_range(&mut rng, room_min_size, room_max_size + 1);
        let h = rng_range(&mut rng, room_min_size, room_max_size + 1);
        let x = rng_range(&mut rng, 0, map_width - w);
        let y = rng_range(&mut rng, 0, map_height - h);
        let new_room = Rect::new(x, y, w, h);
        assert(room_in_grid(new_room, w_int, h_int));
        let mut failed = false;
        let mut i: usize = 0;
        while i < rooms.len()
            invariant
                i <= rooms@.len(),
                failed ==> rooms@.len() > 0,
                !failed ==> forall|k: int|
                    0 <= k < i ==> !rects_overlap(new_room, #[trigger] rooms@[k]),
            decreases rooms@.len() - i,
        {
            if new_room.intersects_with(&rooms[i]) {
                failed = true;
            }
            i = i + 1;
        }
        if !failed {
            let ghost m0 = map;
            create_room(new_room, &mut map);
            proof {
                lemma_center_in_interior(new_room);
                assert forall|a: int, b: int| map.open_at(a, b) implies 1 <= a <= w_int - 2 && 1
                    <= b <= h_int - 2 by {
                    if !m0.open_at(a, b) {
                        assert(rect_interior(new_room, a, b));
                    }
                }
            }
            let (new_x, new_y) = new_room.center();
            let ghost nc: (int, int) = (new_x as int, new_y as int);
            let first = rooms.len() == 0;
            if first {
                let o = &mut objects[player];
                o.set_pos(new_x, new_y);
                proof {
                    spawn = nc;
                    lemma_reach_refl(map, spawn);
                    if player_only_blocker(old(objects)@, player as int) {
                        assert forall|i2: int|
                            0 <= i2 < objects@.len() && i2 != player implies !(
                        #[trigger] objects@[i2]).blocks by {
                            assert(objects@[i2] == old(objects)@[i2]);
                        }
                        lemma_player_only_no_overlap(objects@, player as int);
                    }
                }
            }
            let ghost pre_spawn = objects@;
            place_objects(new_room, &map, objects, max_room_monsters, &mut rng);
            if !first {
                let prev = rooms[rooms.len() - 1];
                let ghost m1 = map;
                connect_rooms(prev, new_room, &mut map, &mut rng);
                proof {
                    lemma_center_in_interior(prev);
                    let ghost pc: (int, int) = (center_x(prev), center_y(prev));
                    assert forall|a: int, b: int| m0.open_at(a, b) implies map.open_at(a, b) by {
                        assert(m1.open_at(a, b));
                    }
                    assert forall|a: int, b: int| map.open_at(a, b) implies 1 <= a <= w_int - 2
                        && 1 <= b <= h_int - 2 by {
                        if !m1.open_at(a, b) {
                            assert(between(center_x(prev), center_x(new_room), a));
                            assert(between(center_y(prev), center_y(new_room), b));
                        }
                    }
                    assert forall|i2: int| 0 <= i2 < rooms@.len() implies reachable(
                        map,
                        spawn,
                        (center_x(#[trigger] rooms@[i2]), center_y(rooms@[i2])),
                    ) by {
                        lemma_reach_monotone(
                            m0,
                            map,
                            spawn,
                            (center_x(rooms@[i2]), center_y(rooms@[i2])),
                        );
                    }
                    assert(reachable(map, spawn, pc));
                    lemma_reach_trans(map, spawn, pc, nc);
                }
            }
            let ghost rooms_before = rooms@;
            rooms.push(new_room);
            proof {
                assert forall|a: int, b: int| map.open_at(a, b) implies in_some_room(rooms@, a, b)
                    || in_tunnel_zone(rooms@, a, b) by {
                    let n = rooms@.len() as int;
                    if m0.open_at(a, b) {
                        if in_some_room(rooms_before, a, b) {
                            lemma_in_some_room_push(rooms_before, new_room, a, b);
                        } else {
                            lemma_in_tunnel_zone_push(rooms_before, new_room, a, b);
                        }
                    } else if rect_interior(new_room, a, b) {
                        assert(rect_interior(rooms@[n - 1], a, b));
                    } else {
                        assert(!first);
                        assert(between(center_x(rooms@[n - 2]), center_x(rooms@[n - 1]), a)
                            && between(center_y(rooms@[n - 2]), center_y(rooms@[n - 1]), b));
                    }
                }
                assert forall|i2: int|
                    old(objects)@.len() <= i2 < objects@.len() implies in_some_room(
                    rooms@,
                    (#[trigger] objects@[i2]).x as int,
                    objects@[i2].y as int,
                ) by {
                    if i2 < pre_spawn.len() {
                        lemma_in_some_room_push(
                            rooms_before,
                            new_room,
                            objects@[i2].x as int,
                            objects@[i2].y as int,
                        );
                    } else {
                        assert(rect_interior(new_room, objects@[i2].x as int, objects@[i2].y as int));
                        assert(rect_interior(
                            rooms@[rooms@.len() - 1],
                            objects@[i2].x as int,
                            objects@[i2].y as int,
                        ));
                    }
                }
            }
        }
        attempt = attempt + 1;
    }
    proof {
        if rooms@.len() == 0 {
            assert(objects@ =~= old(objects)@);
        } else {
            assert forall|i: int, x: int, y: int|
                0 <= i < rooms@.len() && #[trigger] rect_interior(rooms@[i], x, y) implies reachable(
                map,
                spawn,
                (x, y),
            ) by {
                assert forall|a: int, b: int| rect_interior(rooms@[i], a, b) implies map.open_at(
                    a,
                    b,
                ) by {}
                lemma_room_connected(map, rooms@[i], x, y);
                lemma_reach_trans(map, spawn, (center_x(rooms@[i]), center_y(rooms@[i])), (x, y));
            }
        }
    }
    (map, rooms)
}

} // verus!
