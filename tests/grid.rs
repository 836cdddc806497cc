use boulderdash::mapping::{LevelMap, MapCell, Tile};
use boulderdash::pos::{Direction, Pos};
use boulderdash::rect::{Rect, RectIterator};
use boulderdash::util::{direction_of, pick, select_random, select_random_direction};

#[test]
fn pos_neighbours() {
    let p = Pos { x: 3, y: 5 };
    assert_eq!(p.up(), Pos { x: 3, y: 6 });
    assert_eq!(p.down(), Pos { x: 3, y: 4 });
    assert_eq!(p.left(), Pos { x: 2, y: 5 });
    assert_eq!(p.right(), Pos { x: 4, y: 5 });
    assert_eq!(p.to(Direction::Down), Pos { x: 3, y: 4 });
    assert_eq!(p.to(Direction::Up), Pos { x: 3, y: 6 });
    assert_eq!(p.with_x(9), Pos { x: 9, y: 5 });
    assert_eq!(p.with_y(0), Pos { x: 3, y: 0 });
    assert_eq!(Pos::zero(), Pos { x: 0, y: 0 });
}

#[test]
fn rect_orders_bounds() {
    let r = Rect::new(5, 2, 7, 1);
    assert_eq!((r.min_x, r.max_x, r.min_y, r.max_y), (2, 5, 1, 7));
    assert!(r.contains(Pos { x: 2, y: 7 }));
    assert!(!r.contains(Pos { x: 6, y: 3 }));
    assert!(!r.contains(Pos { x: 3, y: 0 }));
}

#[test]
fn rect_walk_is_row_major() {
    let mut it = RectIterator::new(Rect { min_x: 1, min_y: 2, max_x: 2, max_y: 3 });
    let mut seen = Vec::new();
    while let Some(p) = it.next() {
        seen.push((p.x, p.y));
    }
    assert_eq!(seen, vec![(1, 2), (2, 2), (1, 3), (2, 3)]);
    assert_eq!(it.next(), None);
}

#[test]
fn grid_walk_covers_every_cell_once() {
    let m = LevelMap::new(3, 2);
    let mut it = m.iter_points();
    let mut n = 0;
    let mut last = None;
    while let Some(p) = it.next() {
        n += 1;
        last = Some(p);
    }
    assert_eq!(n, 6);
    assert_eq!(last, Some(Pos { x: 2, y: 1 }));
}

#[test]
fn new_grid_is_empty() {
    let m = LevelMap::new(4, 3);
    assert_eq!((m.x_len(), m.y_len(), m.x_max(), m.y_max()), (4, 3, 3, 2));
    let c = m.get(2, 1);
    assert_eq!(c.tile, Tile::Empty);
    assert_eq!(c.cool_down, 0);
    assert!(c.is_empty());
    assert!(c.is_cool());
    assert!(m.has_no_diamonds());
    assert_eq!(m.find_player(), None);
    let r = m.rect();
    assert_eq!((r.min_x, r.max_x, r.min_y, r.max_y), (0, 3, 0, 2));
}

#[test]
fn diamonds_and_player_are_found() {
    let mut m = LevelMap::new(4, 3);
    m.set(Pos { x: 3, y: 2 }, MapCell { tile: Tile::Diamond, cool_down: 0, facing: None });
    assert!(!m.has_no_diamonds());
    m.set(Pos { x: 2, y: 2 }, MapCell { tile: Tile::Player, cool_down: 0, facing: None });
    m.set(Pos { x: 3, y: 1 }, MapCell { tile: Tile::Player, cool_down: 0, facing: None });
    assert_eq!(m.find_player(), Some(Pos { x: 3, y: 1 }));
    assert_eq!(m.at(Pos { x: 3, y: 2 }).tile, Tile::Diamond);
}

#[test]
fn cooldown_flags() {
    let c = MapCell { tile: Tile::Boulder, cool_down: 1, facing: None };
    assert!(!c.is_cool());
    assert!(!c.is_empty());
    assert_eq!(Tile::default(), Tile::Empty);
    assert_eq!(MapCell::default().tile, Tile::Empty);
}

#[test]
fn random_choices_stay_in_range() {
    for _ in 0..50 {
        let v = select_random(3, 8);
        assert!(v == 3 || v == 8);
        let d = select_random_direction();
        assert!(matches!(d, Direction::Up | Direction::Down | Direction::Left | Direction::Right));
    }
}

#[test]
fn level_walks_hand_out_cells_in_order() {
    let mut m = LevelMap::new(2, 2);
    m.set(Pos { x: 1, y: 0 }, MapCell { tile: Tile::Boulder, cool_down: 3, facing: None });
    m.set(Pos { x: 0, y: 1 }, MapCell { tile: Tile::Mud, cool_down: 0, facing: None });
    let mut it = m.iter();
    let mut seen = Vec::new();
    while let Some((p, c)) = it.next() {
        seen.push((p.x, p.y, c.tile));
    }
    assert_eq!(
        seen,
        vec![(0, 0, Tile::Empty), (1, 0, Tile::Boulder), (0, 1, Tile::Mud), (1, 1, Tile::Empty)]
    );
    let mut owned = m.clone().into_iter();
    let first = owned.next().unwrap();
    let second = owned.next().unwrap();
    assert_eq!(second.0, Pos { x: 1, y: 0 });
    assert_eq!(second.1.cool_down, 3);
    assert_eq!(first.1.tile, Tile::Empty);
    assert!(owned.next().is_some());
    assert!(owned.next().is_some());
    assert!(owned.next().is_none());
}

#[test]
fn glyphs_round_trip() {
    let all = [
        Tile::Player,
        Tile::Wall,
        Tile::Boulder,
        Tile::Monster,
        Tile::Diamond,
        Tile::Exit,
        Tile::Mud,
        Tile::Empty,
    ];
    for t in all {
        assert_eq!(Tile::from_glyph(t.glyph()), Some(t));
    }
    assert_eq!(Tile::Player.glyph(), '@');
    assert_eq!(Tile::Monster.glyph(), 'H');
    assert_eq!(Tile::from_glyph('#'), Some(Tile::Wall));
    assert_eq!(Tile::from_glyph('z'), None);
}

#[test]
fn grid_shape_check() {
    assert!(LevelMap::new(1, 1).is_wf());
    assert!(LevelMap::new(5, 2).is_wf());
}

#[test]
fn drawn_values_pick_as_stated() {
    assert_eq!(pick(true, 1, 2), 1);
    assert_eq!(pick(false, 1, 2), 2);
    assert_eq!(direction_of(0), Direction::Up);
    assert_eq!(direction_of(5), Direction::Down);
    assert_eq!(direction_of(10), Direction::Right);
    assert_eq!(direction_of(255), Direction::Left);
}

#[test]
fn empty_rect_walk_yields_nothing() {
    let mut it = RectIterator::new(Rect { min_x: 3, min_y: 0, max_x: 2, max_y: 4 });
    assert_eq!(it.next(), None);
    let mut flat = Rect { min_x: 0, min_y: 5, max_x: 4, max_y: 1 }.into_iter();
    assert_eq!(flat.next(), None);
    assert!(!Rect { min_x: 3, min_y: 0, max_x: 2, max_y: 4 }.contains(Pos { x: 2, y: 1 }));
}

#[test]
fn level_rows_build_a_grid() {
    let rows: Vec<Vec<char>> = vec!["###".chars().collect(), "#@#".chars().collect(), "#*X".chars().collect()];
    let m = LevelMap::from_rows(&rows).unwrap();
    assert_eq!((m.x_len(), m.y_len()), (3, 3));
    assert_eq!(m.get(1, 1).tile, Tile::Player);
    assert_eq!(m.get(1, 0).tile, Tile::Diamond);
    assert_eq!(m.get(2, 0).tile, Tile::Exit);
    assert_eq!(m.get(0, 2).tile, Tile::Wall);
    assert_eq!(m.get(2, 0).cool_down, 0);
}

#[test]
fn bad_level_rows_are_refused() {
    let ragged: Vec<Vec<char>> = vec!["###".chars().collect(), "##".chars().collect()];
    assert!(LevelMap::from_rows(&ragged).is_none());
    let unknown: Vec<Vec<char>> = vec!["#?#".chars().collect()];
    assert!(LevelMap::from_rows(&unknown).is_none());
    let none: Vec<Vec<char>> = Vec::new();
    assert!(LevelMap::from_rows(&none).is_none());
    let blank: Vec<Vec<char>> = vec![Vec::new()];
    assert!(LevelMap::from_rows(&blank).is_none());
}
