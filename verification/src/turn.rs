//! The session context and turn scheduler: the generated grid plus the
//! visibility tracker, one player input consumed per turn, then every
//! AI-tagged actor acting exactly once in stored order.

use vstd::prelude::*;

use crate::combat::{lemma_melee_no_blocking_overlap, resolve_melee, spec_melee};
use crate::grid::DungeonMap;
use crate::mapgen::{make_map, player_only_blocker};
use crate::rect::{center_x, center_y, lemma_center_in_interior, rect_interior};
use crate::motion::{
    lemma_move_by_no_blocking_overlap, lemma_player_action_no_blocking_overlap, move_towards,
    player_move_or_attack, spec_move_by, spec_player_action, step_toward,
};
use crate::object::{dist_sq, no_blocking_overlap, Colour, Fighter, Object, PlayerAction};
use crate::tile::Tile;

verus! {

/// One player intent per turn: a unit step in a cardinal direction, or
/// anything unmapped, which costs no turn.
#[derive(Clone, Copy, Debug, PartialEq, Eq, Structural)]
pub enum Command {
    MoveNorth,
    MoveSouth,
    MoveWest,
    MoveEast,
    Other,
}

/// The relative step a command asks for; `Other` maps to no displacement.
pub open spec fn command_delta(c: Command) -> (int, int) {
    match c {
        Command::MoveNorth => (0, -1),
        Command::MoveSouth => (0, 1),
        Command::MoveWest => (-1, 0),
        Command::MoveEast => (1, 0),
        Command::Other => (0, 0),
    }
}

/// The session context: the immutable dungeon grid (only its exploration
/// marks ever change), the current visible set, and the player position the
/// visible set was last computed for.
pub struct Game {
    pub map: DungeonMap,
    pub visible: Vec<Vec<bool>>,
    pub previous_player_position: (i32, i32),
}

impl Game {
    /// Well-formedness: the grid is well-formed and the visible set has the
    /// grid's dimensions.
    pub open spec fn wf(self) -> bool {
        &&& self.map.wf()
        &&& self.visible@.len() == self.map.spec_width()
        &&& forall|x: int|
            0 <= x < self.visible@.len() ==> (#[trigger] self.visible@[x])@.len()
                == self.map.spec_height()
    }

    /// `(x, y)` is on the grid and currently visible.
    pub open spec fn visible_at(self, x: int, y: int) -> bool {
        self.map.in_bounds(x, y) && self.visible@[x]@[y]
    }

    /// Wrap a generated grid into a session with nothing visible yet and a
    /// sentinel previous player position, so the first frame always asks for
    /// a visibility recomputation.
    pub fn new(map: DungeonMap) -> (g: Game)
        requires
            map.wf(),
        ensures
            g.wf(),
            g.map == map,
            forall|x: int, y: int| !(#[trigger] g.visible_at(x, y)),
            g.previous_player_position == (-1i32, -1i32),
    {
        let w = map.width();
        let h = map.height();
        let mut visible: Vec<Vec<bool>> = Vec::new();
        let mut x: usize = 0;
        while x < w
            invariant
                x <= w,
                visible@.len() == x,
                forall|i: int| 0 <= i < x ==> (#[trigger] visible@[i])@.len() == h,
                forall|i: int, j: int|
                    0 <= i < x && 0 <= j < h ==> !(#[trigger] visible@[i]@[j]),
            decreases w - x,
        {
            let mut column: Vec<bool> = Vec::new();
            let mut y: usize = 0;
            while y < h
                invariant
                    y <= h,
                    column@.len() == y,
                    forall|j: int| 0 <= j < y ==> !(#[trigger] column@[j]),
                decreases h - y,
            {
                column.push(false);
                y = y + 1;
            }
            visible.push(column);
            x = x + 1;
        }
        Game { map, visible, previous_player_position: (-1, -1) }
    }

    /// The visible set must be recomputed only when the player has moved
    /// since it was last computed — the dirty-flag optimization.
    pub fn fov_recompute_needed(&self, player_x: i32, player_y: i32) -> (r: bool)
        ensures
            r == ((player_x, player_y) != self.previous_player_position),
    {
        let (px, py) = self.previous_player_position;
        px != player_x || py != player_y
    }

    /// Install a freshly computed visible set (the FOV oracle's output for
    /// the given player position) and permanently mark every visible tile as
    /// explored. Exploration is monotonic: a tile once explored stays
    /// explored, and the terrain itself never changes.
    pub fn apply_fov(&mut self, visible: Vec<Vec<bool>>, player_x: i32, player_y: i32)
        requires
            old(self).wf(),
            visible@.len() == old(self).map.spec_width(),
            forall|x: int|
                0 <= x < visible@.len() ==> (#[trigger] visible@[x])@.len() == old(
                    self,
                ).map.spec_height(),
        ensures
            final(self).wf(),
            final(self).map.spec_width() == old(self).map.spec_width(),
            final(self).map.spec_height() == old(self).map.spec_height(),
            final(self).visible == visible,
            final(self).previous_player_position == (player_x, player_y),
            // visibility feeds exploration
            forall|x: int, y: int|
                final(self).map.in_bounds(x, y) ==> (#[trigger] final(self).map.explored_at(x, y)
                    == (old(self).map.explored_at(x, y) || visible@[x]@[y])),
            // exploration is monotonic: an explored tile stays explored
            forall|x: int, y: int|
                old(self).map.in_bounds(x, y) && #[trigger] old(self).map.explored_at(x, y)
                    ==> final(self).map.explored_at(x, y),
            // the terrain is untouched
            forall|x: int, y: int|
                final(self).map.in_bounds(x, y) ==> #[trigger] final(self).map.tile_at(x, y)
                    == (Tile {
                    explored: final(self).map.explored_at(x, y),
                    ..old(self).map.tile_at(x, y)
                }),
    {
        let w = self.map.width();
        let h = self.map.height();
        let mut x: usize = 0;
        while x < w
            invariant
                w == self.map.spec_width(),
                h == self.map.spec_height(),
                x <= w,
                self.map.wf(),
                self.visible == old(self).visible,
                self.previous_player_position == old(self).previous_player_position,
                visible@.len() == w,
                forall|i: int| 0 <= i < w ==> (#[trigger] visible@[i])@.len() == h,
                forall|a: int, b: int|
                    self.map.in_bounds(a, b) ==> #[trigger] self.map.tile_at(a, b) == (Tile {
                        explored: old(self).map.explored_at(a, b) || (a < x && visible@[a]@[b]),
                        ..old(self).map.tile_at(a, b)
                    }),
            decreases w - x,
        {
            let mut y: usize = 0;
            while y < h
                invariant
                    w == self.map.spec_width(),
                    h == self.map.spec_height(),
                    x < w,
                    y <= h,
                    self.map.wf(),
                    self.visible == old(self).visible,
                    self.previous_player_position == old(self).previous_player_position,
                    visible@.len() == w,
                    forall|i: int| 0 <= i < w ==> (#[trigger] visible@[i])@.len() == h,
                    forall|a: int, b: int|
                        self.map.in_bounds(a, b) ==> #[trigger] self.map.tile_at(a, b) == (Tile {
                            explored: old(self).map.explored_at(a, b) || ((a < x || (a == x && b
                                < y)) && visible@[a]@[b]),
                            ..old(self).map.tile_at(a, b)
                        }),
                decreases h - y,
            {
                if visible[x][y] {
                    self.map.mark_explored(x as i32, y as i32);
                }
                y = y + 1;
            }
            x = x + 1;
        }
        self.visible = visible;
        self.previous_player_position = (player_x, player_y);
    }

    /// Whether `(x, y)` is currently visible; coordinates off the grid are
    /// never visible.
    pub fn is_visible(&self, x: i32, y: i32) -> (r: bool)
        requires
            self.wf(),
        ensures
            r == self.visible_at(x as int, y as int),
    {
        if x >= 0 && y >= 0 && (x as usize) < self.map.width() && (y as usize)
            < self.map.height() {
            self.visible[x as usize][y as usize]
        } else {
            false
        }
    }

    /// Whether `(x, y)` carries the permanent exploration mark; coordinates
    /// off the grid are never explored.
    pub fn is_explored(&self, x: i32, y: i32) -> (r: bool)
        requires
            self.wf(),
        ensures
            r == (self.map.in_bounds(x as int, y as int) && self.map.explored_at(
                x as int,
                y as int,
            )),
    {
        if x >= 0 && y >= 0 && (x as usize) < self.map.width() && (y as usize)
            < self.map.height() {
            self.map.tile(x, y).explored
        } else {
            false
        }
    }
}

/// The actor collection after the actor at `id` takes one greedy step
/// towards `(tx, ty)` (stalling silently if the step is blocked).
pub open spec fn spec_move_towards(
    m: DungeonMap,
    s: Seq<Object>,
    id: int,
    tx: int,
    ty: int,
) -> Seq<Object> {
    spec_move_by(
        m,
        s,
        id,
        step_toward(tx - s[id].x, ty - s[id].y),
        step_toward(ty - s[id].y, tx - s[id].x),
    )
}

/// One basic-AI turn for the actor at `monster`: nothing happens unless the
/// monster stands on a currently visible tile (visibility of the monster is
/// the deliberate proxy for "it can see the player"); then it approaches
/// while the distance to the player is at least 2 (squared distance at least
/// 4), and otherwise strikes the player as long as the player has hit points
/// left.
pub open spec fn spec_ai_turn(g: Game, s: Seq<Object>, monster: int, player: int) -> Seq<Object> {
    let mx = s[monster].x as int;
    let my = s[monster].y as int;
    if g.visible_at(mx, my) {
        if dist_sq(mx, my, s[player].x as int, s[player].y as int) >= 4 {
            spec_move_towards(g.map, s, monster, s[player].x as int, s[player].y as int)
        } else if s[player].fighter is Some && s[player].fighter->0.hp > 0 {
            spec_melee(s, monster, player)
        } else {
            s
        }
    } else {
        s
    }
}

/// The actor collection after the actors at indices `0..n` have each taken
/// their turn in stored order, AI-tagged ones acting through
/// [`spec_ai_turn`]. Sequencing matters: an earlier actor's move can block a
/// later one.
pub open spec fn spec_monster_phase(g: Game, s: Seq<Object>, player: int, n: int) -> Seq<Object>
    decreases n,
{
    if n <= 0 {
        s
    } else {
        let s1 = spec_monster_phase(g, s, player, n - 1);
        if s1[n - 1].ai is Some {
            spec_ai_turn(g, s1, n - 1, player)
        } else {
            s1
        }
    }
}

/// One whole turn: a live player with a mapped movement command acts through
/// [`spec_player_action`] and takes the turn; then, if the player is still
/// alive, every AI-tagged actor acts once. A dead player or an unmapped
/// command takes no turn and changes nothing.
pub open spec fn spec_advance(g: Game, s: Seq<Object>, player: int, cmd: Command) -> (
    Seq<Object>,
    PlayerAction,
) {
    if s[player].alive && cmd != Command::Other {
        let d = command_delta(cmd);
        let s1 = spec_player_action(g.map, s, player, d.0, d.1);
        let s2 = if s1[player].alive {
            spec_monster_phase(g, s1, player, s1.len() as int)
        } else {
            s1
        };
        (s2, PlayerAction::TookTurn)
    } else {
        (s, PlayerAction::DidntTakeTurn)
    }
}

/// Law: one basic-AI turn preserves the one-blocking-actor-per-tile
/// invariant and the number of actors.
pub proof fn lemma_ai_turn_no_blocking_overlap(g: Game, s: Seq<Object>, monster: int, player: int)
    requires
        g.map.wf(),
        0 <= monster < s.len(),
        0 <= player < s.len(),
        no_blocking_overlap(s),
    ensures
        no_blocking_overlap(spec_ai_turn(g, s, monster, player)),
        spec_ai_turn(g, s, monster, player).len() == s.len(),
{
    let mx = s[monster].x as int;
    let my = s[monster].y as int;
    if g.visible_at(mx, my) {
        if dist_sq(mx, my, s[player].x as int, s[player].y as int) >= 4 {
            let tx = s[player].x as int;
            let ty = s[player].y as int;
            lemma_move_by_no_blocking_overlap(
                g.map,
                s,
                monster,
                step_toward(tx - s[monster].x, ty - s[monster].y),
                step_toward(ty - s[monster].y, tx - s[monster].x),
            );
        } else if s[player].fighter is Some && s[player].fighter->0.hp > 0 {
            lemma_melee_no_blocking_overlap(s, monster, player);
        }
    }
}

/// Law: the whole monster phase preserves the one-blocking-actor-per-tile
/// invariant and the number of actors, by induction over the acting order.
pub proof fn lemma_monster_phase_no_blocking_overlap(g: Game, s: Seq<Object>, player: int, n: int)
    requires
        g.map.wf(),
        0 <= player < s.len(),
        n <= s.len(),
        no_blocking_overlap(s),
    ensures
        no_blocking_overlap(spec_monster_phase(g, s, player, n)),
        spec_monster_phase(g, s, player, n).len() == s.len(),
    decreases n,
{
    if n > 0 {
        lemma_monster_phase_no_blocking_overlap(g, s, player, n - 1);
        let s1 = spec_monster_phase(g, s, player, n - 1);
        if s1[n - 1].ai is Some {
            lemma_ai_turn_no_blocking_overlap(g, s1, n - 1, player);
        }
    }
}

/// The monster phase never adds or removes actors.
pub proof fn lemma_monster_phase_len(g: Game, s: Seq<Object>, player: int, n: int)
    requires
        0 <= player < s.len(),
        n <= s.len(),
    ensures
        spec_monster_phase(g, s, player, n).len() == s.len(),
    decreases n,
{
    if n > 0 {
        lemma_monster_phase_len(g, s, player, n - 1);
    }
}

/// Law: a whole turn preserves the invariant that at most one blocking
/// actor occupies any tile — the blocking check guards every movement, and
/// melee never moves anyone.
pub proof fn lemma_advance_no_blocking_overlap(g: Game, s: Seq<Object>, player: int, cmd: Command)
    requires
        g.map.wf(),
        0 <= player < s.len(),
        no_blocking_overlap(s),
    ensures
        no_blocking_overlap(spec_advance(g, s, player, cmd).0),
{
    if s[player].alive && cmd != Command::Other {
        let d = command_delta(cmd);
        lemma_player_action_no_blocking_overlap(g.map, s, player, d.0, d.1);
        let s1 = spec_player_action(g.map, s, player, d.0, d.1);
        if s1[player].alive {
            lemma_monster_phase_no_blocking_overlap(g, s1, player, s1.len() as int);
        }
    }
}

impl Game {
    /// One basic-AI turn for the monster at `monster_id`; see
    /// [`spec_ai_turn`].
    pub fn ai_take_turn(&self, monster_id: usize, player_id: usize, objects: &mut Vec<Object>)
        requires
            self.wf(),
            monster_id < old(objects)@.len(),
            player_id < old(objects)@.len(),
        ensures
            final(objects)@ == spec_ai_turn(
                *self,
                old(objects)@,
                monster_id as int,
                player_id as int,
            ),
    {
        let (mx, my) = objects[monster_id].pos();
        if self.is_visible(mx, my) {
            let (px, py) = objects[player_id].pos();
            let dx: i64 = px as i64 - mx as i64;
            let dy: i64 = py as i64 - my as i64;
            let a: i128 = dx as i128;
            let b: i128 = dy as i128;
            proof {
                assert(-0x1_0000_0000 <= a <= 0x1_0000_0000 && -0x1_0000_0000 <= b
                    <= 0x1_0000_0000);
                assert(a * a <= 0x1_0000_0000_0000_0000 && a * a >= 0) by (nonlinear_arith)
                    requires
                        -0x1_0000_0000 <= a <= 0x1_0000_0000,
                ;
                assert(b * b <= 0x1_0000_0000_0000_0000 && b * b >= 0) by (nonlinear_arith)
                    requires
                        -0x1_0000_0000 <= b <= 0x1_0000_0000,
                ;
            }
            let dx2: i128 = a * a;
            let dy2: i128 = b * b;
            proof {
                assert(dx2 == (dx as int) * (dx as int));
                assert(dy2 == (dy as int) * (dy as int));
            }
            if dx2 + dy2 >= 4 {
                move_towards(monster_id, px, py, &self.map, objects);
            } else {
                let player_has_hp = match objects[player_id].fighter {
                    Some(f) => f.hp > 0,
                    None => false,
                };
                if player_has_hp {
                    resolve_melee(monster_id, player_id, objects);
                }
            }
        }
    }

    /// Feed one input to the turn scheduler; see [`spec_advance`]. An
    /// unmapped input or a dead player returns `DidntTakeTurn` and leaves
    /// every actor — and the session — untouched; the grid's exploration
    /// marks are never affected by turns at all.
    pub fn advance_turn(&self, objects: &mut Vec<Object>, player: usize, cmd: Command) -> (r:
        PlayerAction)
        requires
            self.wf(),
            player < old(objects)@.len(),
        ensures
            final(objects)@ == spec_advance(*self, old(objects)@, player as int, cmd).0,
            r == spec_advance(*self, old(objects)@, player as int, cmd).1,
            final(objects)@.len() == old(objects)@.len(),
            (cmd == Command::Other || !old(objects)@[player as int].alive) ==> r
                == PlayerAction::DidntTakeTurn && final(objects)@ == old(objects)@,
    {
        let alive = objects[player].alive;
        let is_move = match cmd {
            Command::Other => false,
            _ => true,
        };
        if alive && is_move {
            let (dx, dy): (i32, i32) = match cmd {
                Command::MoveNorth => (0, -1),
                Command::MoveSouth => (0, 1),
                Command::MoveWest => (-1, 0),
                Command::MoveEast => (1, 0),
                Command::Other => (0, 0),
            };
            player_move_or_attack(player, dx, dy, self, objects);
            proof {
                assert(objects@.len() == old(objects)@.len());
            }
            let ghost s1 = objects@;
            if objects[player].alive {
                let mut id: usize = 0;
                while id < objects.len()
                    invariant
                        self.wf(),
                        id <= objects@.len(),
                        objects@.len() == s1.len(),
                        player < s1.len(),
                        objects@ == spec_monster_phase(*self, s1, player as int, id as int),
                    decreases objects@.len() - id,
                {
                    if objects[id].ai.is_some() {
                        self.ai_take_turn(id, player, objects);
                    }
                    id = id + 1;
                }
                proof {
                    assert(objects@ == spec_monster_phase(
                        *self,
                        s1,
                        player as int,
                        s1.len() as int,
                    ));
                }
            }
            PlayerAction::TookTurn
        } else {
            PlayerAction::DidntTakeTurn
        }
    }
}

/// Start a session: create the player (the distinguished actor at index 0),
/// generate the dungeon around it, and wrap the grid in a fresh [`Game`]
/// with nothing visible or explored yet.
pub fn new_session(
    map_width: i32,
    map_height: i32,
    room_min_size: i32,
    room_max_size: i32,
    max_rooms: i32,
    max_room_monsters: i32,
    seed: u64,
) -> (r: (Game, Vec<Object>, usize))
    requires
        2 <= room_min_size <= room_max_size,
        room_max_size < map_width <= 0x3fff_ffff,
        room_max_size < map_height <= 0x3fff_ffff,
        0 <= max_rooms,
        0 <= max_room_monsters < i32::MAX,
    ensures
        r.0.wf(),
        r.0.map.spec_width() == map_width as int,
        r.0.map.spec_height() == map_height as int,
        forall|x: int, y: int| !(#[trigger] r.0.visible_at(x, y)),
        forall|x: int, y: int|
            r.0.map.in_bounds(x, y) ==> !(#[trigger] r.0.map.explored_at(x, y)),
        r.2 < r.1@.len(),
        r.1@[r.2 as int].alive,
        r.1@[r.2 as int].blocks,
        r.1@[r.2 as int].fighter == Some(Fighter { max_hp: 30, hp: 30, defense: 2, power: 5 }),
        r.1@[r.2 as int].ai is None,
        // whenever at least one room was asked for, at least one is carved and
        // the player stands on its floor
        max_rooms >= 1 ==> r.0.map.open_at(r.1@[r.2 as int].x as int, r.1@[r.2 as int].y as int),
        // the player starts alone, so no two blocking actors share a tile
        no_blocking_overlap(r.1@),
{
    let mut player = Object::new(0, 0, '@', Colour { r: 0, g: 0, b: 0 }, "player", true);
    player.fighter = Some(Fighter { max_hp: 30, hp: 30, defense: 2, power: 5 });
    player.alive = true;
    let mut objects: Vec<Object> = Vec::new();
    objects.push(player);
    let ghost initial = objects@;
    let (map, rooms) = make_map(
        map_width,
        map_height,
        room_min_size,
        room_max_size,
        max_rooms,
        max_room_monsters,
        &mut objects,
        0,
        seed,
    );
    proof {
        assert(player_only_blocker(initial, 0));
        if max_rooms >= 1 {
            lemma_center_in_interior(rooms@[0]);
            assert(rect_interior(rooms@[0], center_x(rooms@[0]), center_y(rooms@[0])));
        }
    }
    let game = Game::new(map);
    (game, objects, 0)
}

} // verus!
