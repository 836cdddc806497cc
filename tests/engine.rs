use boulderdash::game::{update_game, update_game_with, GameState, Roll};
use boulderdash::mapping::{LevelMap, MapCell, Tile};
use boulderdash::pos::{Direction, Pos};

fn cell(tile: Tile) -> MapCell {
    MapCell { tile, cool_down: 0, facing: None }
}

/// A grid of the given size, walls on the border, empty inside.
fn walled(w: usize, h: usize) -> LevelMap {
    let mut m = LevelMap::new(w, h);
    for x in 0..w {
        for y in 0..h {
            if x == 0 || y == 0 || x == w - 1 || y == h - 1 {
                m.set(Pos { x, y }, cell(Tile::Wall));
            }
        }
    }
    m
}

fn rolls(w: usize, h: usize, roll_left: bool, facing: Direction) -> Vec<Vec<Roll>> {
    vec![vec![Roll { roll_left, facing }; h]; w]
}

fn tile(g: &GameState, x: usize, y: usize) -> Tile {
    g.map.get(x, y).tile
}

#[test]
fn player_steps_into_empty_cell() {
    let mut m = walled(4, 3);
    m.set(Pos { x: 1, y: 1 }, cell(Tile::Player));
    let mut g = GameState::new(m, 0, 3);
    g.crush = 5;
    g.player_command = Some(Direction::Right);
    update_game_with(&mut g, &rolls(4, 3, true, Direction::Up));
    assert_eq!(tile(&g, 1, 1), Tile::Empty);
    assert_eq!(tile(&g, 2, 1), Tile::Player);
    assert_eq!(g.map.get(2, 1).cool_down, 10);
    assert_eq!(g.crush, g.crush_resistance);
    assert_eq!(g.turn, 1);
    assert!(g.player_alive);
}

#[test]
fn player_walking_into_monster_dies() {
    let mut m = walled(4, 3);
    m.set(Pos { x: 1, y: 1 }, cell(Tile::Player));
    m.set(Pos { x: 2, y: 1 }, cell(Tile::Monster));
    let mut g = GameState::new(m, 0, 3);
    g.player_command = Some(Direction::Right);
    update_game_with(&mut g, &rolls(4, 3, true, Direction::Up));
    assert!(!g.player_alive);
    assert_eq!(tile(&g, 1, 1), Tile::Empty);
    assert_eq!(tile(&g, 2, 1), Tile::Monster);
    assert_eq!(g.map.find_player(), None);
}

#[test]
fn last_diamond_opens_exit_next_turn() {
    let mut m = walled(5, 4);
    m.set(Pos { x: 1, y: 2 }, cell(Tile::Player));
    m.set(Pos { x: 2, y: 2 }, cell(Tile::Diamond));
    m.set(Pos { x: 3, y: 2 }, cell(Tile::Exit));
    let mut g = GameState::new(m, 7, 3);
    g.player_command = Some(Direction::Right);
    assert!(!g.map.has_no_diamonds());
    update_game_with(&mut g, &rolls(5, 4, true, Direction::Up));
    assert_eq!(g.score, 8);
    assert!(g.map.has_no_diamonds());
    assert!(!g.level_complete);
    assert_eq!(tile(&g, 2, 2), Tile::Player);
    let mut turns = 0;
    while !g.level_complete && turns < 20 {
        update_game_with(&mut g, &rolls(5, 4, true, Direction::Up));
        turns += 1;
    }
    assert!(g.level_complete);
    assert_eq!(turns, 10);
    assert_eq!(tile(&g, 2, 2), Tile::Player);
    assert_eq!(tile(&g, 3, 2), Tile::Exit);
    assert_eq!(g.score, 8);
}

#[test]
fn exit_stays_shut_while_diamonds_remain() {
    let mut m = walled(4, 4);
    m.set(Pos { x: 1, y: 1 }, cell(Tile::Player));
    m.set(Pos { x: 2, y: 1 }, cell(Tile::Exit));
    m.set(Pos { x: 2, y: 2 }, cell(Tile::Diamond));
    let mut g = GameState::new(m, 0, 3);
    g.player_command = Some(Direction::Right);
    update_game_with(&mut g, &rolls(4, 4, true, Direction::Up));
    assert!(!g.level_complete);
    assert_eq!(tile(&g, 1, 1), Tile::Player);
    assert_eq!(tile(&g, 2, 1), Tile::Exit);
}

#[test]
fn boulder_falls_into_empty_cell() {
    let mut m = walled(3, 4);
    m.set(Pos { x: 1, y: 2 }, cell(Tile::Boulder));
    let mut g = GameState::new(m, 0, 3);
    update_game_with(&mut g, &rolls(3, 4, true, Direction::Up));
    assert_eq!(tile(&g, 1, 2), Tile::Empty);
    assert_eq!(tile(&g, 1, 1), Tile::Boulder);
    assert_eq!(g.map.get(1, 1).cool_down, 20);
}

#[test]
fn cooling_boulder_waits() {
    let mut m = walled(3, 4);
    m.set(Pos { x: 1, y: 2 }, MapCell { tile: Tile::Boulder, cool_down: 5, facing: None });
    let mut g = GameState::new(m, 0, 3);
    update_game_with(&mut g, &rolls(3, 4, true, Direction::Up));
    assert_eq!(tile(&g, 1, 2), Tile::Boulder);
    assert_eq!(tile(&g, 1, 1), Tile::Empty);
    assert_eq!(g.map.get(1, 2).cool_down, 4);
    assert_eq!(g.map.get(0, 0).cool_down, -1);
    assert_eq!(g.map.get(1, 1).cool_down, -1);
}

#[test]
fn boulder_crushes_after_resistance_runs_out() {
    let mut m = walled(3, 4);
    m.set(Pos { x: 1, y: 1 }, cell(Tile::Player));
    m.set(Pos { x: 1, y: 2 }, cell(Tile::Boulder));
    let mut g = GameState::new(m, 0, 3);
    g.crush_resistance = 3;
    g.crush = 3;
    for expected in [2, 1, 0] {
        update_game_with(&mut g, &rolls(3, 4, true, Direction::Up));
        assert!(g.player_alive);
        assert_eq!(g.crush, expected);
        assert_eq!(tile(&g, 1, 1), Tile::Player);
    }
    update_game_with(&mut g, &rolls(3, 4, true, Direction::Up));
    assert!(!g.player_alive);
    assert_eq!(tile(&g, 1, 1), Tile::Boulder);
    assert_eq!(tile(&g, 1, 2), Tile::Empty);
    assert_eq!(g.map.get(1, 1).cool_down, 20);
    assert_eq!(g.turn, 4);
}

#[test]
fn blocked_boulder_rolls_diagonally() {
    let mut m = walled(4, 4);
    m.set(Pos { x: 2, y: 1 }, cell(Tile::Mud));
    m.set(Pos { x: 2, y: 2 }, cell(Tile::Boulder));
    let mut g = GameState::new(m, 0, 3);
    update_game_with(&mut g, &rolls(4, 4, true, Direction::Up));
    assert_eq!(tile(&g, 2, 2), Tile::Empty);
    assert_eq!(tile(&g, 1, 1), Tile::Boulder);
    assert_eq!(tile(&g, 2, 1), Tile::Mud);
}

#[test]
fn blocked_boulder_stays_when_side_is_full() {
    let mut m = walled(4, 4);
    m.set(Pos { x: 2, y: 1 }, cell(Tile::Mud));
    m.set(Pos { x: 2, y: 2 }, cell(Tile::Boulder));
    let mut g = GameState::new(m, 0, 3);
    update_game_with(&mut g, &rolls(4, 4, false, Direction::Up));
    assert_eq!(tile(&g, 2, 2), Tile::Boulder);
    assert_eq!(tile(&g, 1, 1), Tile::Empty);
}

#[test]
fn moved_player_does_not_move_twice() {
    let mut m = walled(3, 5);
    m.set(Pos { x: 1, y: 1 }, cell(Tile::Player));
    let mut g = GameState::new(m, 0, 3);
    g.player_command = Some(Direction::Up);
    update_game_with(&mut g, &rolls(3, 5, true, Direction::Up));
    assert_eq!(tile(&g, 1, 2), Tile::Player);
    assert_eq!(tile(&g, 1, 3), Tile::Empty);
    assert_eq!(g.map.find_player(), Some(Pos { x: 1, y: 2 }));
}

#[test]
fn diamond_scores_once() {
    let mut m = walled(3, 5);
    m.set(Pos { x: 1, y: 1 }, cell(Tile::Player));
    m.set(Pos { x: 1, y: 2 }, cell(Tile::Diamond));
    m.set(Pos { x: 1, y: 3 }, cell(Tile::Diamond));
    let mut g = GameState::new(m, 0, 3);
    g.player_command = Some(Direction::Up);
    update_game_with(&mut g, &rolls(3, 5, true, Direction::Up));
    assert_eq!(g.score, 1);
    assert_eq!(tile(&g, 1, 3), Tile::Diamond);
}

#[test]
fn monster_without_facing_picks_one() {
    let mut m = walled(4, 3);
    m.set(Pos { x: 1, y: 1 }, cell(Tile::Monster));
    let mut g = GameState::new(m, 0, 3);
    update_game_with(&mut g, &rolls(4, 3, true, Direction::Right));
    assert_eq!(tile(&g, 1, 1), Tile::Monster);
    assert_eq!(g.map.get(1, 1).facing, Some(Direction::Right));
}

#[test]
fn monster_moves_and_keeps_facing() {
    let mut m = walled(4, 3);
    m.set(Pos { x: 1, y: 1 }, MapCell { tile: Tile::Monster, cool_down: 0, facing: Some(Direction::Right) });
    let mut g = GameState::new(m, 0, 3);
    update_game_with(&mut g, &rolls(4, 3, true, Direction::Up));
    assert_eq!(tile(&g, 1, 1), Tile::Empty);
    assert_eq!(tile(&g, 2, 1), Tile::Monster);
    assert_eq!(g.map.get(2, 1).facing, Some(Direction::Right));
    assert_eq!(g.map.get(2, 1).cool_down, 7);
}

#[test]
fn blocked_monster_turns() {
    let mut m = walled(3, 3);
    m.set(Pos { x: 1, y: 1 }, MapCell { tile: Tile::Monster, cool_down: 0, facing: Some(Direction::Left) });
    let mut g = GameState::new(m, 0, 3);
    update_game_with(&mut g, &rolls(3, 3, true, Direction::Down));
    assert_eq!(tile(&g, 1, 1), Tile::Monster);
    assert_eq!(g.map.get(1, 1).facing, Some(Direction::Down));
    assert_eq!(g.map.get(1, 1).cool_down, 10);
}

#[test]
fn monster_catches_player() {
    let mut m = walled(4, 3);
    m.set(Pos { x: 1, y: 1 }, MapCell { tile: Tile::Monster, cool_down: 0, facing: Some(Direction::Right) });
    m.set(Pos { x: 2, y: 1 }, cell(Tile::Player));
    let mut g = GameState::new(m, 0, 3);
    update_game_with(&mut g, &rolls(4, 3, true, Direction::Up));
    assert!(!g.player_alive);
    assert_eq!(tile(&g, 2, 1), Tile::Monster);
    assert_eq!(tile(&g, 1, 1), Tile::Empty);
}

#[test]
fn random_turn_moves_player() {
    let mut m = walled(4, 3);
    m.set(Pos { x: 1, y: 1 }, cell(Tile::Player));
    let mut g = GameState::new(m, 2, 3);
    g.player_command = Some(Direction::Right);
    update_game(&mut g);
    assert_eq!(tile(&g, 2, 1), Tile::Player);
    assert_eq!(g.turn, 1);
    assert_eq!(g.score, 2);
    assert_eq!(g.player_lives, 3);
}

#[test]
fn readiness_needs_walled_border() {
    let mut m = walled(4, 3);
    m.set(Pos { x: 1, y: 1 }, cell(Tile::Player));
    let g = GameState::new(m.clone(), 0, 3);
    assert!(g.is_ready());
    m.set(Pos { x: 3, y: 1 }, cell(Tile::Empty));
    let open = GameState::new(m, 0, 3);
    assert!(!open.is_ready());
    let mut late = GameState::new(walled(3, 3), i64::MAX - 9, 3);
    assert!(late.is_ready());
    late.score = i64::MAX - 8;
    assert!(!late.is_ready());
    late.score = 0;
    late.turn = i64::MAX;
    assert!(!late.is_ready());
}

#[test]
fn new_state_defaults() {
    let g = GameState::new(walled(3, 3), 12, 2);
    assert_eq!((g.score, g.player_lives, g.turn), (12, 2, 0));
    assert_eq!((g.crush_resistance, g.crush), (30, 30));
    assert!(g.player_alive && !g.level_complete);
    assert_eq!(g.player_command, None);
}

#[test]
fn exit_in_outer_wall_after_last_diamond() {
    let mut m = walled(4, 4);
    m.set(Pos { x: 3, y: 2 }, cell(Tile::Exit));
    m.set(Pos { x: 1, y: 2 }, cell(Tile::Player));
    m.set(Pos { x: 2, y: 2 }, cell(Tile::Diamond));
    let mut g = GameState::new(m, 0, 3);
    g.player_command = Some(Direction::Right);
    assert!(g.is_ready());
    update_game_with(&mut g, &rolls(4, 4, true, Direction::Up));
    assert_eq!(g.score, 1);
    assert_eq!(tile(&g, 2, 2), Tile::Player);
    assert_eq!(tile(&g, 1, 2), Tile::Empty);
    assert!(!g.level_complete);
    assert!(g.map.has_no_diamonds());
    for _ in 0..10 {
        update_game_with(&mut g, &rolls(4, 4, true, Direction::Up));
    }
    assert!(g.level_complete);
    assert_eq!(tile(&g, 3, 2), Tile::Exit);
}

#[test]
fn resting_boulder_keeps_its_cell() {
    let mut m = walled(3, 4);
    m.set(Pos { x: 1, y: 2 }, MapCell { tile: Tile::Boulder, cool_down: 2, facing: None });
    let mut g = GameState::new(m, 0, 3);
    update_game_with(&mut g, &rolls(3, 4, true, Direction::Up));
    assert_eq!(tile(&g, 1, 2), Tile::Boulder);
    assert_eq!(g.map.get(1, 2).cool_down, 1);
}
