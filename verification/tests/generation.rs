use roguelike::mapgen::make_map;
use roguelike::object::{Ai, Colour, Object};
use roguelike::turn::new_session;

fn fresh_player() -> Object {
    let mut player = Object::new(0, 0, '@', Colour { r: 255, g: 255, b: 255 }, "player", true);
    player.alive = true;
    player
}

#[test]
fn generation_scenario_player_spawns_at_first_room_center() {
    let mut objects = vec![fresh_player()];
    let (_map, rooms) = make_map(80, 45, 6, 10, 30, 3, &mut objects, 0, 424242);
    assert!(rooms.len() >= 1, "these parameters leave ample space for rooms");
    let (cx, cy) = rooms[0].center();
    assert_eq!(objects[0].pos(), (cx, cy));
}

#[test]
fn generation_rooms_never_overlap_even_on_boundaries() {
    let mut objects = vec![fresh_player()];
    let (_map, rooms) = make_map(80, 45, 6, 10, 30, 3, &mut objects, 0, 7);
    for i in 0..rooms.len() {
        for j in 0..rooms.len() {
            if i != j {
                assert!(!rooms[i].intersects_with(&rooms[j]));
            }
        }
    }
}

#[test]
fn generation_every_room_tile_reachable_from_spawn() {
    let mut objects = vec![fresh_player()];
    let (map, rooms) = make_map(80, 45, 6, 10, 30, 3, &mut objects, 0, 99);
    assert!(rooms.len() >= 1);
    let w = map.width() as i32;
    let h = map.height() as i32;
    let (px, py) = objects[0].pos();
    // breadth-first search over non-blocked tiles, 4-connected
    let mut seen = vec![vec![false; h as usize]; w as usize];
    let mut queue = vec![(px, py)];
    seen[px as usize][py as usize] = true;
    while let Some((x, y)) = queue.pop() {
        for (dx, dy) in [(1, 0), (-1, 0), (0, 1), (0, -1)] {
            let (nx, ny) = (x + dx, y + dy);
            if nx >= 0 && ny >= 0 && nx < w && ny < h && !seen[nx as usize][ny as usize]
                && !map.tile(nx, ny).blocked
            {
                seen[nx as usize][ny as usize] = true;
                queue.push((nx, ny));
            }
        }
    }
    for room in &rooms {
        for x in (room.x1 + 1)..room.x2 {
            for y in (room.y1 + 1)..room.y2 {
                assert!(!map.tile(x, y).blocked, "room tile must be floor");
                assert!(seen[x as usize][y as usize], "room tile must be reachable");
            }
        }
    }
}

#[test]
fn generation_monsters_are_basic_ai_on_floor() {
    let mut objects = vec![fresh_player()];
    let (map, rooms) = make_map(80, 45, 6, 10, 30, 3, &mut objects, 0, 5);
    assert!(rooms.len() >= 1);
    for monster in &objects[1..] {
        assert_eq!(monster.ai, Some(Ai::Basic));
        assert!(monster.alive);
        assert!(monster.blocks);
        assert!(monster.fighter.is_some());
        assert!(!map.tile(monster.x, monster.y).blocked);
    }
}

#[test]
fn generation_with_zero_attempts_is_all_walls() {
    let mut objects = vec![fresh_player()];
    let before = objects[0].pos();
    let (map, rooms) = make_map(30, 20, 4, 6, 0, 3, &mut objects, 0, 1);
    assert_eq!(rooms.len(), 0);
    assert_eq!(objects.len(), 1);
    assert_eq!(objects[0].pos(), before);
    for x in 0..30 {
        for y in 0..20 {
            assert!(map.tile(x, y).blocked);
            assert!(map.tile(x, y).block_sight);
            assert!(!map.tile(x, y).explored);
        }
    }
}

#[test]
fn generation_rooms_lie_inside_the_border() {
    let mut objects = vec![fresh_player()];
    let (_map, rooms) = make_map(80, 45, 6, 10, 30, 3, &mut objects, 0, 31);
    for room in &rooms {
        assert!(room.x1 >= 0 && room.x2 <= 79);
        assert!(room.y1 >= 0 && room.y2 <= 44);
        assert!(room.x2 - room.x1 >= 6 && room.x2 - room.x1 <= 10);
        assert!(room.y2 - room.y1 >= 6 && room.y2 - room.y1 <= 10);
    }
}

#[test]
fn generation_differs_between_seeds() {
    let mut objects_a = vec![fresh_player()];
    let (_m1, rooms_a) = make_map(80, 45, 6, 10, 30, 3, &mut objects_a, 0, 1);
    let mut objects_b = vec![fresh_player()];
    let (_m2, rooms_b) = make_map(80, 45, 6, 10, 30, 3, &mut objects_b, 0, 2);
    assert!(rooms_a.len() >= 1 && rooms_b.len() >= 1);
    let same = rooms_a.len() == rooms_b.len()
        && (0..rooms_a.len()).all(|i| rooms_a[i].center() == rooms_b[i].center());
    assert!(!same, "different seeds should carve different dungeons");
}

#[test]
fn generation_accepts_a_room_whenever_one_is_attempted() {
    let mut objects = vec![fresh_player()];
    let (_map, rooms) = make_map(20, 20, 4, 6, 1, 0, &mut objects, 0, 77);
    assert_eq!(rooms.len(), 1, "the first candidate can never collide");
}

#[test]
fn generation_keeps_the_border_walled() {
    let mut objects = vec![fresh_player()];
    let (map, rooms) = make_map(80, 45, 6, 10, 30, 3, &mut objects, 0, 13);
    assert!(rooms.len() >= 1);
    for x in 0..80 {
        assert!(map.tile(x, 0).blocked);
        assert!(map.tile(x, 44).blocked);
    }
    for y in 0..45 {
        assert!(map.tile(0, y).blocked);
        assert!(map.tile(79, y).blocked);
    }
}

#[test]
fn generation_carves_only_rooms_and_corridors() {
    let mut objects = vec![fresh_player()];
    let (map, rooms) = make_map(80, 45, 6, 10, 30, 3, &mut objects, 0, 57);
    assert!(rooms.len() >= 1);
    let centers: Vec<(i32, i32)> = rooms.iter().map(|r| r.center()).collect();
    let span = |a: i32, b: i32, v: i32| a.min(b) <= v && v <= a.max(b);
    for x in 0..80 {
        for y in 0..45 {
            if !map.tile(x, y).blocked {
                let in_room = rooms
                    .iter()
                    .any(|r| r.x1 < x && x < r.x2 && r.y1 < y && y < r.y2);
                let in_corridor = (1..centers.len()).any(|i| {
                    span(centers[i - 1].0, centers[i].0, x)
                        && span(centers[i - 1].1, centers[i].1, y)
                });
                assert!(in_room || in_corridor, "floor appears only in rooms and corridors");
            }
        }
    }
}

#[test]
fn generation_never_stacks_blocking_actors() {
    let mut objects = vec![fresh_player()];
    let (_map, rooms) = make_map(80, 45, 6, 10, 30, 3, &mut objects, 0, 21);
    assert!(rooms.len() >= 1);
    for i in 0..objects.len() {
        for j in (i + 1)..objects.len() {
            if objects[i].blocks && objects[j].blocks {
                assert_ne!(
                    objects[i].pos(),
                    objects[j].pos(),
                    "two blocking actors may never share a tile; the player's spawn is free too"
                );
            }
        }
    }
}

#[test]
fn generation_puts_every_monster_inside_an_accepted_room() {
    let mut objects = vec![fresh_player()];
    let (_map, rooms) = make_map(80, 45, 6, 10, 30, 3, &mut objects, 0, 17);
    assert!(rooms.len() >= 1);
    for monster in &objects[1..] {
        let inside = rooms.iter().any(|r| {
            r.x1 < monster.x && monster.x < r.x2 && r.y1 < monster.y && monster.y < r.y2
        });
        assert!(inside, "monsters spawn only on room floor, never in tunnels");
    }
}

#[test]
fn new_session_sets_up_the_player() {
    let (game, objects, player) = new_session(80, 45, 6, 10, 30, 3, 11);
    assert_eq!(player, 0);
    assert!(objects.len() >= 1);
    assert!(objects[0].alive);
    assert!(objects[0].blocks);
    let f = objects[0].fighter.unwrap();
    assert_eq!((f.max_hp, f.hp, f.defense, f.power), (30, 30, 2, 5));
    assert!(objects[0].ai.is_none());
    assert_eq!(game.map.width(), 80);
    assert_eq!(game.map.height(), 45);
    assert!(!game.is_visible(0, 0));
    assert!(!game.is_explored(0, 0));
    let (px, py) = objects[player].pos();
    assert!(!game.map.tile(px, py).blocked, "the player starts on open floor");
}
