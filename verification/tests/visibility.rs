use roguelike::grid::DungeonMap;
use roguelike::rect::Rect;
use roguelike::tile::Tile;
use roguelike::turn::Game;

fn open_map(w: usize, h: usize) -> DungeonMap {
    let mut tiles = Vec::new();
    for _ in 0..w {
        let mut column = Vec::new();
        for _ in 0..h {
            column.push(Tile::empty());
        }
        tiles.push(column);
    }
    DungeonMap { width: w, height: h, tiles }
}

fn one_visible(w: usize, h: usize, x: usize, y: usize) -> Vec<Vec<bool>> {
    let mut v = vec![vec![false; h]; w];
    v[x][y] = true;
    v
}

#[test]
fn tiles_start_as_walls_or_floors() {
    let floor = Tile::empty();
    assert!(!floor.blocked && !floor.block_sight && !floor.explored);
    let wall = Tile::wall();
    assert!(wall.blocked && wall.block_sight && !wall.explored);
}

#[test]
fn rect_center_and_inclusive_intersection() {
    let r = Rect::new(0, 0, 10, 10);
    assert_eq!((r.x1, r.y1, r.x2, r.y2), (0, 0, 10, 10));
    assert_eq!(r.center(), (5, 5));
    let touching = Rect::new(10, 0, 4, 4);
    assert!(r.intersects_with(&touching), "a shared boundary column counts as overlap");
    assert!(touching.intersects_with(&r));
    let apart = Rect::new(11, 11, 3, 3);
    assert!(!r.intersects_with(&apart));
}

#[test]
fn visibility_starts_empty_and_follows_the_oracle() {
    let mut game = Game::new(open_map(6, 6));
    assert!(!game.is_visible(2, 3));
    game.apply_fov(one_visible(6, 6, 2, 3), 0, 0);
    assert!(game.is_visible(2, 3));
    assert!(!game.is_visible(3, 2));
}

#[test]
fn exploration_is_monotonic() {
    let mut game = Game::new(open_map(6, 6));
    game.apply_fov(one_visible(6, 6, 2, 3), 0, 0);
    assert!(game.is_explored(2, 3));
    // the tile falls out of view, but the exploration mark is permanent
    game.apply_fov(vec![vec![false; 6]; 6], 1, 0);
    assert!(!game.is_visible(2, 3));
    assert!(game.is_explored(2, 3));
}

#[test]
fn queries_off_the_grid_are_false() {
    let game = Game::new(open_map(4, 4));
    assert!(!game.is_visible(-1, 0));
    assert!(!game.is_visible(0, 99));
    assert!(!game.is_explored(-5, -5));
}

#[test]
fn fov_recompute_only_when_the_player_moved() {
    let mut game = Game::new(open_map(6, 6));
    assert!(game.fov_recompute_needed(3, 3), "a fresh session always recomputes");
    game.apply_fov(vec![vec![false; 6]; 6], 3, 3);
    assert!(!game.fov_recompute_needed(3, 3));
    assert!(game.fov_recompute_needed(3, 4));
}
