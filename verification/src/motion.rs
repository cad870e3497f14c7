//! Collision-checked movement: relative unit steps, the player's
//! move-or-attack disambiguation, and the greedy monster approach step.

use vstd::prelude::*;

use crate::combat::{resolve_melee, spec_melee};
use crate::grid::{is_blocked, occupied, spec_is_blocked, DungeonMap};
use crate::object::{at_pos, no_blocking_overlap, Object};
use crate::turn::Game;

verus! {

/// The sign of `d`, one of -1, 0, 1.
pub open spec fn sign(d: int) -> int {
    if d > 0 {
        1
    } else if d < 0 {
        -1
    } else {
        0
    }
}

/// One axis of the greedy step towards a target that is `d` away on this axis
/// and `o` away on the other: the displacement `d / sqrt(d*d + o*o)` rounded
/// to the nearest of -1, 0, 1 (half rounds away from zero). Rounding away
/// from zero happens exactly when `|d| / sqrt(d*d + o*o) >= 1/2`, which is the
/// integer test `3*d*d >= o*o`. Each axis rounds independently, so the step
/// can be diagonal even when the straight path is blocked on one axis.
pub open spec fn step_toward(d: int, o: int) -> int {
    if 3 * (d * d) >= o * o {
        sign(d)
    } else {
        0
    }
}

/// `o` displaced by `(dx, dy)`.
pub open spec fn moved(o: Object, dx: int, dy: int) -> Object {
    Object { x: (o.x + dx) as i32, y: (o.y + dy) as i32, ..o }
}

/// The actor collection after the actor at `id` tries a relative move by
/// `(dx, dy)`: the move happens exactly when the destination lies on the grid
/// and is not blocked by terrain or by a blocking actor; otherwise nothing
/// changes. A destination off the grid counts as blocked.
pub open spec fn spec_move_by(
    m: DungeonMap,
    s: Seq<Object>,
    id: int,
    dx: int,
    dy: int,
) -> Seq<Object> {
    let nx = s[id].x + dx;
    let ny = s[id].y + dy;
    if m.in_bounds(nx, ny) && !spec_is_blocked(m, s, nx, ny) {
        s.update(id, moved(s[id], dx, dy))
    } else {
        s
    }
}

/// Some actor (blocking or not) stands on `(x, y)`.
pub open spec fn someone_at(s: Seq<Object>, x: int, y: int) -> bool {
    exists|i: int| 0 <= i < s.len() && at_pos(#[trigger] s[i], x, y)
}

/// `j` is the lowest index of an actor standing on `(x, y)`.
pub open spec fn is_first_at(s: Seq<Object>, x: int, y: int, j: int) -> bool {
    &&& 0 <= j < s.len()
    &&& at_pos(s[j], x, y)
    &&& forall|k: int| 0 <= k < j ==> !at_pos(#[trigger] s[k], x, y)
}

/// The lowest index of an actor standing on `(x, y)`; meaningful when
/// [`someone_at`] holds.
pub open spec fn first_at_index(s: Seq<Object>, x: int, y: int) -> int {
    choose|j: int| is_first_at(s, x, y, j)
}

/// The lowest index of an actor on a tile is unique, so a concrete witness
/// pins [`first_at_index`] down.
pub proof fn lemma_first_at_index(s: Seq<Object>, x: int, y: int, j: int)
    requires
        is_first_at(s, x, y, j),
    ensures
        first_at_index(s, x, y) == j,
{
    let j2 = first_at_index(s, x, y);
    assert(is_first_at(s, x, y, j2));
    if j2 < j {
        assert(at_pos(s[j2], x, y));
        assert(false);
    } else if j < j2 {
        assert(at_pos(s[j], x, y));
        assert(false);
    }
}

/// Whenever some actor stands on a tile, a lowest-index actor on it exists.
pub proof fn lemma_first_exists(s: Seq<Object>, x: int, y: int, i: int)
    requires
        0 <= i < s.len(),
        at_pos(s[i], x, y),
    ensures
        exists|j: int| is_first_at(s, x, y, j),
    decreases i,
{
    if forall|k: int| 0 <= k < i ==> !at_pos(#[trigger] s[k], x, y) {
        assert(is_first_at(s, x, y, i));
    } else {
        let k = choose|k: int| 0 <= k < i && at_pos(#[trigger] s[k], x, y);
        lemma_first_exists(s, x, y, k);
    }
}

/// The actor collection after the player tries a relative step: if any actor
/// stands on the destination tile the player strikes the one with the lowest
/// index and stays in place; otherwise the step resolves as [`spec_move_by`].
pub open spec fn spec_player_action(
    m: DungeonMap,
    s: Seq<Object>,
    player: int,
    dx: int,
    dy: int,
) -> Seq<Object> {
    let tx = s[player].x + dx;
    let ty = s[player].y + dy;
    if someone_at(s, tx, ty) {
        spec_melee(s, player, first_at_index(s, tx, ty))
    } else {
        spec_move_by(m, s, player, dx, dy)
    }
}

/// Law: a relative move to a blocked or off-grid destination changes no
/// actor at all; a move to a free destination displaces the actor by exactly
/// `(dx, dy)`, changes none of its other fields, and leaves every other
/// actor unchanged.
pub proof fn lemma_move_by_exact(m: DungeonMap, s: Seq<Object>, id: int, dx: int, dy: int)
    requires
        m.wf(),
        0 <= id < s.len(),
    ensures
        ({
            let nx = s[id].x + dx;
            let ny = s[id].y + dy;
            let s2 = spec_move_by(m, s, id, dx, dy);
            &&& !(m.in_bounds(nx, ny) && !spec_is_blocked(m, s, nx, ny)) ==> s2 == s
            &&& (m.in_bounds(nx, ny) && !spec_is_blocked(m, s, nx, ny)) ==> {
                &&& s2.len() == s.len()
                &&& s2[id].x == nx && s2[id].y == ny
                &&& s2[id] == (Object { x: nx as i32, y: ny as i32, ..s[id] })
                &&& forall|k: int| 0 <= k < s.len() && k != id ==> s2[k] == s[k]
            }
        }),
{
}

/// Law: a relative move preserves the invariant that no two blocking actors
/// share a tile — the destination of a successful move cannot hold a
/// blocking actor, by the very check that allowed the move.
pub proof fn lemma_move_by_no_blocking_overlap(
    m: DungeonMap,
    s: Seq<Object>,
    id: int,
    dx: int,
    dy: int,
)
    requires
        m.wf(),
        0 <= id < s.len(),
        no_blocking_overlap(s),
    ensures
        no_blocking_overlap(spec_move_by(m, s, id, dx, dy)),
{
    let nx = s[id].x + dx;
    let ny = s[id].y + dy;
    let s2 = spec_move_by(m, s, id, dx, dy);
    if m.in_bounds(nx, ny) && !spec_is_blocked(m, s, nx, ny) {
        assert forall|i: int, j: int|
            0 <= i < j < s2.len() && (#[trigger] s2[i]).blocks && (#[trigger] s2[j]).blocks
                implies !(s2[i].x == s2[j].x && s2[i].y == s2[j].y) by {
            if i == id {
                assert(s2[j] == s[j]);
                if s2[i].x == s2[j].x && s2[i].y == s2[j].y {
                    assert(s[j].blocks && at_pos(s[j], nx, ny));
                    assert(occupied(s, nx, ny));
                }
            } else if j == id {
                assert(s2[i] == s[i]);
                if s2[i].x == s2[j].x && s2[i].y == s2[j].y {
                    assert(s[i].blocks && at_pos(s[i], nx, ny));
                    assert(occupied(s, nx, ny));
                }
            } else {
                assert(s2[i] == s[i] && s2[j] == s[j]);
            }
        }
    }
}

/// Law: the player's move-or-attack preserves the one-blocking-actor-per-
/// tile invariant and never changes the number of actors — an attack only
/// damages its target in place, and a move goes through the blocking check.
pub proof fn lemma_player_action_no_blocking_overlap(
    m: DungeonMap,
    s: Seq<Object>,
    player: int,
    dx: int,
    dy: int,
)
    requires
        m.wf(),
        0 <= player < s.len(),
        no_blocking_overlap(s),
    ensures
        no_blocking_overlap(spec_player_action(m, s, player, dx, dy)),
        spec_player_action(m, s, player, dx, dy).len() == s.len(),
{
    let tx = s[player].x + dx;
    let ty = s[player].y + dy;
    if someone_at(s, tx, ty) {
        let w = choose|i: int| 0 <= i < s.len() && at_pos(#[trigger] s[i], tx, ty);
        lemma_first_exists(s, tx, ty, w);
        let j = first_at_index(s, tx, ty);
        assert(is_first_at(s, tx, ty, j));
        crate::combat::lemma_melee_no_blocking_overlap(s, player, j);
    } else {
        lemma_move_by_no_blocking_overlap(m, s, player, dx, dy);
    }
}

/// Move the actor at `id` by `(dx, dy)` if the destination is free; see
/// [`spec_move_by`]. A blocked destination leaves every actor unchanged.
pub fn move_by(id: usize, dx: i32, dy: i32, map: &DungeonMap, objects: &mut Vec<Object>)
    requires
        map.wf(),
        id < old(objects)@.len(),
    ensures
        final(objects)@ == spec_move_by(*map, old(objects)@, id as int, dx as int, dy as int),
{
    let (x, y) = objects[id].pos();
    let nx64: i64 = x as i64 + dx as i64;
    let ny64: i64 = y as i64 + dy as i64;
    let w: usize = map.width();
    let h: usize = map.height();
    if 0 <= nx64 && nx64 < w as i64 && 0 <= ny64 && ny64 < h as i64 {
        let nx: i32 = nx64 as i32;
        let ny: i32 = ny64 as i32;
        if !is_blocked(nx, ny, map, objects) {
            let o = &mut objects[id];
            o.set_pos(nx, ny);
            assert(objects@ =~= spec_move_by(*map, old(objects)@, id as int, dx as int, dy as int));
        }
    }
}

/// The player's action for a relative step: if any actor stands on the
/// destination tile, strike the one with the lowest index and stay in place;
/// otherwise step there as [`move_by`] does.
pub fn player_move_or_attack(
    player_id: usize,
    dx: i32,
    dy: i32,
    game: &Game,
    objects: &mut Vec<Object>,
)
    requires
        game.map.wf(),
        player_id < old(objects)@.len(),
    ensures
        final(objects)@ == spec_player_action(
            game.map,
            old(objects)@,
            player_id as int,
            dx as int,
            dy as int,
        ),
        final(objects)@.len() == old(objects)@.len(),
{
    let map = &game.map;
    let (x, y) = objects[player_id].pos();
    let tx64: i64 = x as i64 + dx as i64;
    let ty64: i64 = y as i64 + dy as i64;
    let ghost tx = x + dx as int;
    let ghost ty = y + dy as int;
    let mut i: usize = 0;
    while i < objects.len()
        invariant
            map.wf(),
            player_id < objects@.len(),
            objects@ == old(objects)@,
            i <= objects@.len(),
            tx64 == tx && ty64 == ty,
            tx == old(objects)@[player_id as int].x + dx,
            ty == old(objects)@[player_id as int].y + dy,
            forall|k: int| 0 <= k < i ==> !at_pos(#[trigger] objects@[k], tx, ty),
        decreases objects@.len() - i,
    {
        let o = &objects[i];
        if o.x as i64 == tx64 && o.y as i64 == ty64 {
            assert(is_first_at(old(objects)@, tx, ty, i as int));
            resolve_melee(player_id, i, objects);
            proof {
                assert(someone_at(old(objects)@, tx, ty));
                lemma_first_at_index(old(objects)@, tx, ty, i as int);
            }
            return ;
        }
        i = i + 1;
    }
    assert(!someone_at(objects@, tx, ty));
    move_by(player_id, dx, dy, map, objects);
}

/// Greedy approach: take one unit step (possibly diagonal) towards the
/// target, each axis rounded independently (see [`step_toward`]), and let
/// [`move_by`] silently refuse it if the destination is blocked — the actor
/// then simply stalls this turn.
pub fn move_towards(
    id: usize,
    target_x: i32,
    target_y: i32,
    map: &DungeonMap,
    objects: &mut Vec<Object>,
)
    requires
        map.wf(),
        id < old(objects)@.len(),
    ensures
        ({
            let dx = target_x - old(objects)@[id as int].x;
            let dy = target_y - old(objects)@[id as int].y;
            final(objects)@ == spec_move_by(
                *map,
                old(objects)@,
                id as int,
                step_toward(dx, dy),
                step_toward(dy, dx),
            )
        }),
{
    let (x, y) = objects[id].pos();
    let dx64: i64 = target_x as i64 - x as i64;
    let dy64: i64 = target_y as i64 - y as i64;
    let sx: i32 = unit_step(dx64, dy64);
    let sy: i32 = unit_step(dy64, dx64);
    move_by(id, sx, sy, map, objects);
}

/// The executable form of [`step_toward`] for displacements that fit in
/// a 33-bit range (differences of two `i32` coordinates always do).
fn unit_step(d: i64, o: i64) -> (s: i32)
    requires
        -0x1_0000_0000 <= d <= 0x1_0000_0000,
        -0x1_0000_0000 <= o <= 0x1_0000_0000,
    ensures
        s as int == step_toward(d as int, o as int),
{
    let a: i128 = d as i128;
    let b: i128 = o as i128;
    proof {
        assert(-0x1_0000_0000 <= a <= 0x1_0000_0000 && -0x1_0000_0000 <= b <= 0x1_0000_0000);
        assert(a * a <= 0x1_0000_0000_0000_0000 && a * a >= 0) by (nonlinear_arith)
            requires
                -0x1_0000_0000 <= a <= 0x1_0000_0000,
        ;
        assert(b * b <= 0x1_0000_0000_0000_0000 && b * b >= 0) by (nonlinear_arith)
            requires
                -0x1_0000_0000 <= b <= 0x1_0000_0000,
        ;
    }
    let aa: i128 = a * a;
    let bb: i128 = b * b;
    proof {
        assert(aa == (d as int) * (d as int));
        assert(bb == (o as int) * (o as int));
    }
    if 3 * aa >= bb {
        if d > 0 {
            1
        } else if d < 0 {
            -1
        } else {
            0
        }
    } else {
        0
    }
}

} // verus!
