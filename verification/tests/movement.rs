use roguelike::grid::{is_blocked, DungeonMap};
use roguelike::motion::{move_by, move_towards, player_move_or_attack};
use roguelike::object::{Colour, Fighter, Object};
use roguelike::tile::Tile;
use roguelike::turn::Game;

fn open_map(w: usize, h: usize) -> DungeonMap {
    let mut tiles = Vec::new();
    for _ in 0..w {
        let mut column = Vec::new();
        for _ in 0..h {
            column.push(Tile::empty());
        }
        tiles.push(column);
    }
    DungeonMap { width: w, height: h, tiles }
}

fn actor(x: i32, y: i32, blocks: bool) -> Object {
    let mut o = Object::new(x, y, 'o', Colour { r: 0, g: 0, b: 0 }, "actor", blocks);
    o.alive = true;
    o
}

#[test]
fn is_blocked_true_on_blocking_actor_whatever_the_tile() {
    let map = open_map(3, 3);
    let objects = vec![actor(1, 1, true), actor(0, 1, false)];
    assert!(is_blocked(1, 1, &map, &objects));
    assert!(!is_blocked(0, 1, &map, &objects), "non-blocking actors do not block");
    assert!(!is_blocked(0, 0, &map, &objects), "empty floor is free");
}

#[test]
fn is_blocked_true_on_walls() {
    let mut map = open_map(3, 3);
    map.tiles[2][2] = Tile::wall();
    let objects: Vec<Object> = Vec::new();
    assert!(is_blocked(2, 2, &map, &objects));
    assert!(!is_blocked(1, 2, &map, &objects));
}

#[test]
fn move_by_steps_by_exactly_the_delta() {
    let map = open_map(5, 5);
    let mut objects = vec![actor(2, 2, true)];
    move_by(0, 1, -1, &map, &mut objects);
    assert_eq!(objects[0].pos(), (3, 1));
}

#[test]
fn move_by_refuses_walls() {
    let mut map = open_map(5, 5);
    map.tiles[3][2] = Tile::wall();
    let mut objects = vec![actor(2, 2, true)];
    move_by(0, 1, 0, &map, &mut objects);
    assert_eq!(objects[0].pos(), (2, 2));
}

#[test]
fn move_by_refuses_blocking_actors() {
    let map = open_map(5, 5);
    let mut objects = vec![actor(2, 2, true), actor(3, 2, true)];
    move_by(0, 1, 0, &map, &mut objects);
    assert_eq!(objects[0].pos(), (2, 2));
    assert_eq!(objects[1].pos(), (3, 2));
}

#[test]
fn move_by_refuses_the_grid_edge() {
    let map = open_map(5, 5);
    let mut objects = vec![actor(0, 0, true)];
    move_by(0, -1, 0, &map, &mut objects);
    assert_eq!(objects[0].pos(), (0, 0));
}

#[test]
fn move_towards_takes_a_diagonal_step() {
    let map = open_map(5, 5);
    let mut objects = vec![actor(1, 1, true)];
    move_towards(0, 3, 3, &map, &mut objects);
    assert_eq!(objects[0].pos(), (2, 2));
}

#[test]
fn move_towards_rounds_each_axis_independently() {
    let map = open_map(5, 5);
    let mut objects = vec![actor(0, 0, true)];
    move_towards(0, 3, 1, &map, &mut objects);
    assert_eq!(objects[0].pos(), (1, 0), "the shallow axis rounds to zero");
}

#[test]
fn movement_stall_scenario_wall_on_the_greedy_diagonal() {
    let mut map = open_map(5, 5);
    map.tiles[2][2] = Tile::wall();
    let mut objects = vec![actor(1, 1, true)];
    move_towards(0, 3, 3, &map, &mut objects);
    assert_eq!(objects[0].pos(), (1, 1), "the monster simply stalls this turn");
}

#[test]
fn player_move_or_attack_moves_into_free_space() {
    let game = Game::new(open_map(5, 5));
    let mut objects = vec![actor(1, 1, true)];
    player_move_or_attack(0, 1, 0, &game, &mut objects);
    assert_eq!(objects[0].pos(), (2, 1));
}

#[test]
fn player_move_or_attack_strikes_instead_of_moving() {
    let game = Game::new(open_map(5, 5));
    let mut player = actor(1, 1, true);
    player.fighter = Some(Fighter { max_hp: 30, hp: 30, defense: 2, power: 5 });
    let mut monster = actor(2, 1, true);
    monster.fighter = Some(Fighter { max_hp: 10, hp: 10, defense: 2, power: 3 });
    let mut objects = vec![player, monster];
    player_move_or_attack(0, 1, 0, &game, &mut objects);
    assert_eq!(objects[0].pos(), (1, 1), "the player must not enter the occupied tile");
    assert_eq!(objects[1].fighter.unwrap().hp, 7);
    assert!(objects[1].alive);
}

#[test]
fn object_accessors_report_position() {
    let mut o = actor(4, 7, false);
    assert_eq!(o.pos(), (4, 7));
    o.set_pos(9, 2);
    assert_eq!(o.pos(), (9, 2));
    assert_eq!(o.name, "actor");
}

#[test]
fn distance_to_is_the_squared_euclidean_distance() {
    let a = actor(0, 0, false);
    let b = actor(3, 4, false);
    assert_eq!(a.distance_to(&b), 25);
    assert_eq!(b.distance_to(&a), 25);
    assert_eq!(a.distance_to(&a), 0);
}
