use roguelike::combat::resolve_melee;
use roguelike::grid::DungeonMap;
use roguelike::object::{Ai, Colour, Fighter, Object, PlayerAction};
use roguelike::tile::Tile;
use roguelike::turn::{Command, Game};

fn open_map(w: usize, h: usize) -> DungeonMap {
    let mut tiles = Vec::new();
    for _ in 0..w {
        let mut column = Vec::new();
        for _ in 0..h {
            column.push(Tile::empty());
        }
        tiles.push(column);
    }
    DungeonMap { width: w, height: h, tiles }
}

fn fighter_at(x: i32, y: i32, hp: i32, defense: i32, power: i32) -> Object {
    let mut o = Object::new(x, y, 'o', Colour { r: 0, g: 0, b: 0 }, "fighter", true);
    o.alive = true;
    o.fighter = Some(Fighter { max_hp: hp, hp, defense, power });
    o
}

fn all_visible(game: &mut Game) {
    let w = game.map.width();
    let h = game.map.height();
    let visible = vec![vec![true; h]; w];
    game.apply_fov(visible, 0, 0);
}

#[test]
fn combat_scenario_flat_damage_and_single_death_transition() {
    let attacker = fighter_at(0, 0, 20, 0, 5);
    let defender = fighter_at(1, 0, 10, 2, 1);
    let mut objects = vec![attacker, defender];
    resolve_melee(0, 1, &mut objects);
    assert_eq!(objects[1].fighter.unwrap().hp, 7);
    assert!(objects[1].alive);
    resolve_melee(0, 1, &mut objects);
    assert_eq!(objects[1].fighter.unwrap().hp, 4);
    assert!(objects[1].alive);
    resolve_melee(0, 1, &mut objects);
    assert_eq!(objects[1].fighter.unwrap().hp, 1);
    assert!(objects[1].alive, "still one hit point: not dead yet");
    resolve_melee(0, 1, &mut objects);
    assert_eq!(objects[1].fighter.unwrap().hp, 0, "hp is clamped at zero");
    assert!(!objects[1].alive, "death happens exactly when hp reaches zero");
    assert!(!objects[1].blocks, "a corpse no longer blocks its tile");
    resolve_melee(0, 1, &mut objects);
    assert_eq!(objects[1].fighter.unwrap().hp, 0);
    assert!(!objects[1].alive);
}

#[test]
fn combat_damage_never_negative() {
    let attacker = fighter_at(0, 0, 20, 0, 1);
    let defender = fighter_at(1, 0, 10, 5, 1);
    let mut objects = vec![attacker, defender];
    resolve_melee(0, 1, &mut objects);
    assert_eq!(objects[1].fighter.unwrap().hp, 10, "defense above power deals nothing");
}

#[test]
fn turn_gating_scenario_unmapped_key_changes_nothing() {
    let game = Game::new(open_map(7, 7));
    let player = fighter_at(1, 1, 30, 2, 5);
    let mut monster = fighter_at(5, 5, 10, 0, 3);
    monster.ai = Some(Ai::Basic);
    let mut objects = vec![player, monster];
    let outcome = game.advance_turn(&mut objects, 0, Command::Other);
    assert_eq!(outcome, PlayerAction::DidntTakeTurn);
    assert_eq!(objects[0].pos(), (1, 1));
    assert_eq!(objects[1].pos(), (5, 5));
    assert_eq!(objects[0].fighter.unwrap().hp, 30);
    assert_eq!(objects[1].fighter.unwrap().hp, 10);
}

#[test]
fn a_dead_player_takes_no_turn() {
    let game = Game::new(open_map(7, 7));
    let mut player = fighter_at(1, 1, 30, 2, 5);
    player.alive = false;
    let mut monster = fighter_at(3, 1, 10, 0, 3);
    monster.ai = Some(Ai::Basic);
    let mut objects = vec![player, monster];
    let outcome = game.advance_turn(&mut objects, 0, Command::MoveEast);
    assert_eq!(outcome, PlayerAction::DidntTakeTurn);
    assert_eq!(objects[0].pos(), (1, 1));
    assert_eq!(objects[1].pos(), (3, 1));
}

#[test]
fn a_movement_command_takes_the_turn_and_monsters_approach() {
    let mut game = Game::new(open_map(9, 9));
    all_visible(&mut game);
    let player = fighter_at(1, 1, 30, 2, 5);
    let mut monster = fighter_at(5, 1, 10, 0, 3);
    monster.ai = Some(Ai::Basic);
    let mut objects = vec![player, monster];
    let outcome = game.advance_turn(&mut objects, 0, Command::MoveEast);
    assert_eq!(outcome, PlayerAction::TookTurn);
    assert_eq!(objects[0].pos(), (2, 1), "the player stepped east");
    assert_eq!(objects[1].pos(), (4, 1), "the monster approached the player");
}

#[test]
fn an_adjacent_monster_strikes_the_player() {
    let mut game = Game::new(open_map(9, 9));
    all_visible(&mut game);
    let player = fighter_at(1, 1, 30, 2, 5);
    let mut monster = fighter_at(2, 2, 10, 0, 3);
    monster.ai = Some(Ai::Basic);
    let mut objects = vec![player, monster];
    // the player steps north; the monster at distance sqrt(5) >= 2 approaches,
    // rounding its step to (0, -1)
    let outcome = game.advance_turn(&mut objects, 0, Command::MoveNorth);
    assert_eq!(outcome, PlayerAction::TookTurn);
    assert_eq!(objects[0].pos(), (1, 0));
    assert_eq!(objects[1].pos(), (2, 1), "the monster closed the gap");
    let outcome2 = game.advance_turn(&mut objects, 0, Command::Other);
    assert_eq!(outcome2, PlayerAction::DidntTakeTurn, "gating still holds");
    let outcome3 = game.advance_turn(&mut objects, 0, Command::MoveNorth);
    assert_eq!(outcome3, PlayerAction::TookTurn);
    // the player was on the border and could not move; the adjacent monster strikes
    assert_eq!(objects[0].fighter.unwrap().hp, 29, "power 3 against defense 2 deals 1");
}

#[test]
fn an_unseen_monster_does_not_act() {
    let game = Game::new(open_map(9, 9));
    // nothing has been made visible
    let player = fighter_at(1, 1, 30, 2, 5);
    let mut monster = fighter_at(5, 1, 10, 0, 3);
    monster.ai = Some(Ai::Basic);
    let mut objects = vec![player, monster];
    let outcome = game.advance_turn(&mut objects, 0, Command::MoveEast);
    assert_eq!(outcome, PlayerAction::TookTurn);
    assert_eq!(objects[1].pos(), (5, 1), "a monster outside the visible set stalls");
}

#[test]
fn earlier_monsters_can_block_later_ones() {
    let mut game = Game::new(open_map(9, 9));
    all_visible(&mut game);
    let player = fighter_at(1, 1, 30, 2, 5);
    let mut near = fighter_at(3, 1, 10, 0, 3);
    near.ai = Some(Ai::Basic);
    let mut far = fighter_at(4, 1, 10, 0, 3);
    far.ai = Some(Ai::Basic);
    let mut objects = vec![player, near, far];
    let outcome = game.advance_turn(&mut objects, 0, Command::MoveWest);
    assert_eq!(outcome, PlayerAction::TookTurn);
    assert_eq!(objects[0].pos(), (0, 1));
    assert_eq!(objects[1].pos(), (2, 1), "the near monster stepped towards the player");
    assert_eq!(objects[2].pos(), (3, 1), "the far monster took the tile the near one freed");
}
