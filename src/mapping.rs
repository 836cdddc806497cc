use crate::pos::{Direction, Pos};
use crate::rect::{Rect, RectIterator};
use vstd::arithmetic::div_mod::{lemma_mod_pos_bound, lemma_multiply_divide_lt};
use vstd::prelude::*;

verus! {

/// What occupies a grid cell.
#[derive(Copy, Clone, Debug, PartialEq, Eq, Hash, Structural)]
pub enum Tile {
    Player,
    Wall,
    Boulder,
    Monster,
    Diamond,
    Exit,
    Mud,
    Empty,
}

impl Default for Tile {
    fn default() -> (r: Self)
        ensures
            r == Tile::Empty,
    {
        Tile::Empty
    }
}

/// The character a tile is written as.
pub open spec fn glyph_of(t: Tile) -> char {
    match t {
        Tile::Player => '@',
        Tile::Wall => '#',
        Tile::Boulder => 'O',
        Tile::Diamond => '*',
        Tile::Exit => 'X',
        Tile::Monster => 'H',
        Tile::Mud => 'm',
        Tile::Empty => '.',
    }
}

impl Tile {
    /// The character the tile is written as.
    pub fn glyph(self) -> (c: char)
        ensures
            c == glyph_of(self),
    {
        match self {
            Tile::Player => '@',
            Tile::Wall => '#',
            Tile::Boulder => 'O',
            Tile::Diamond => '*',
            Tile::Exit => 'X',
            Tile::Monster => 'H',
            Tile::Mud => 'm',
            Tile::Empty => '.',
        }
    }

    /// The tile written as `c`, if any.
    pub fn from_glyph(c: char) -> (r: Option<Tile>)
        ensures
            forall|t: Tile| r == Some(t) <==> glyph_of(t) == c,
    {
        let r = match c {
            '@' => Some(Tile::Player),
            '#' => Some(Tile::Wall),
            'O' => Some(Tile::Boulder),
            '*' => Some(Tile::Diamond),
            'X' => Some(Tile::Exit),
            'H' => Some(Tile::Monster),
            'm' => Some(Tile::Mud),
            '.' => Some(Tile::Empty),
            _ => None,
        };
        assert forall|t: Tile| r == Some(t) <==> glyph_of(t) == c by {
            match t {
                Tile::Player => {},
                Tile::Wall => {},
                Tile::Boulder => {},
                Tile::Diamond => {},
                Tile::Exit => {},
                Tile::Monster => {},
                Tile::Mud => {},
                Tile::Empty => {},
            }
        }
        r
    }
}

/// One grid cell: its tile, the turns left before its occupant may act, and
/// a monster's patrol direction.
#[derive(Copy, Clone, Debug)]
pub struct MapCell {
    pub tile: Tile,
    pub cool_down: i64,
    pub facing: Option<Direction>,
}

impl Default for MapCell {
    fn default() -> (r: Self)
        ensures
            r == (MapCell { tile: Tile::Empty, cool_down: 0, facing: None }),
    {
        MapCell { tile: Tile::default(), cool_down: 0, facing: None }
    }
}

impl MapCell {
    pub fn is_cool(&self) -> (r: bool)
        ensures
            r == (self.cool_down <= 0),
    {
        self.cool_down <= 0
    }

    pub fn is_empty(&self) -> (r: bool)
        ensures
            r == (self.tile == Tile::Empty),
    {
        self.tile == Tile::Empty
    }
}

/// The rows of a `Vec` of `Vec`s, each seen as a sequence.
pub open spec fn grid_view<T>(v: Seq<Vec<T>>) -> Seq<Seq<T>> {
    v.map_values(|r: Vec<T>| r@)
}

/// A grid of `x_len` columns of `y_len` cells each.
pub open spec fn is_grid<T>(g: Seq<Seq<T>>, x_len: int, y_len: int) -> bool {
    g.len() == x_len && forall|i: int| 0 <= i < x_len ==> #[trigger] g[i].len() == y_len
}

/// Overwrites the cell at column `x`, row `y`.
pub fn set2<T>(v: &mut Vec<Vec<T>>, x: usize, y: usize, val: T)
    requires
        x < old(v)@.len(),
        y < old(v)@[x as int]@.len(),
    ensures
        grid_view(final(v)@) == grid_view(old(v)@).update(
            x as int,
            grid_view(old(v)@)[x as int].update(y as int, val),
        ),
{
    let mut col: Vec<T> = Vec::new();
    v.set_and_swap(x, &mut col);
    col.set(y, val);
    v.set_and_swap(x, &mut col);
    assert(grid_view(v@) =~= grid_view(old(v)@).update(
        x as int,
        grid_view(old(v)@)[x as int].update(y as int, val),
    ));
}

/// `x_len` columns, each of `y_len` copies of `default_value`.
pub fn make_2d_vec<T: Copy>(x_len: usize, y_len: usize, default_value: T) -> (r: Vec<Vec<T>>)
    ensures
        is_grid(grid_view(r@), x_len as int, y_len as int),
        forall|i: int, j: int|
            0 <= i < x_len && 0 <= j < y_len ==> #[trigger] grid_view(r@)[i][j] == default_value,
{
    let mut col: Vec<T> = Vec::new();
    let mut j: usize = 0;
    while j < y_len
        invariant
            j <= y_len,
            col@.len() == j,
            forall|k: int| 0 <= k < j ==> col@[k] == default_value,
        decreases y_len - j,
    {
        col.push(default_value);
        j = j + 1;
    }
    let mut r: Vec<Vec<T>> = Vec::new();
    let mut i: usize = 0;
    while i < x_len
        invariant
            i <= x_len,
            r@.len() == i,
            col@.len() == y_len,
            forall|k: int| 0 <= k < y_len ==> col@[k] == default_value,
            forall|k: int| 0 <= k < i ==> #[trigger] r@[k]@ == col@,
        decreases x_len - i,
    {
        let mut c: Vec<T> = Vec::new();
        let mut j: usize = 0;
        while j < y_len
            invariant
                j <= y_len,
                c@.len() == j,
                col@.len() == y_len,
                forall|k: int| 0 <= k < j ==> c@[k] == col@[k],
            decreases y_len - j,
        {
            c.push(col[j]);
            j = j + 1;
        }
        assert(c@ =~= col@);
        r.push(c);
        i = i + 1;
    }
    r
}

/// The level grid, indexed by column `x` and row `y`.
#[derive(Clone)]
pub struct LevelMap {
    data: Vec<Vec<MapCell>>,
}

impl View for LevelMap {
    type V = Seq<Seq<MapCell>>;

    closed spec fn view(&self) -> Seq<Seq<MapCell>> {
        grid_view(self.data@)
    }
}

impl LevelMap {
    pub open spec fn width(&self) -> int {
        self@.len() as int
    }

    pub open spec fn height(&self) -> int {
        self@[0].len() as int
    }

    /// At least one column and one row, every column as long as the first.
    pub open spec fn wf(&self) -> bool {
        &&& self.width() >= 1
        &&& self.height() >= 1
        &&& is_grid(self@, self.width(), self.height())
    }

    pub open spec fn in_bounds(&self, p: Pos) -> bool {
        p.x < self.width() && p.y < self.height()
    }

    pub open spec fn cell(&self, p: Pos) -> MapCell {
        self@[p.x as int][p.y as int]
    }

    /// The whole grid as a rectangle.
    pub open spec fn rect_spec(&self) -> Rect {
        Rect {
            min_x: 0,
            min_y: 0,
            max_x: (self.width() - 1) as usize,
            max_y: (self.height() - 1) as usize,
        }
    }

    /// A grid of `x_len` by `y_len` default cells.
    pub fn new(x_len: usize, y_len: usize) -> (m: LevelMap)
        requires
            x_len >= 1,
            y_len >= 1,
        ensures
            m.wf(),
            m.width() == x_len,
            m.height() == y_len,
            forall|p: Pos| #[trigger] m.in_bounds(p) ==> m.cell(p) == (MapCell {
                tile: Tile::Empty,
                cool_down: 0,
                facing: None,
            }),
    {
        let d = MapCell::default();
        let data = make_2d_vec(x_len, y_len, d);
        let m = LevelMap { data };
        assert(m@[0].len() == y_len);
        assert forall|p: Pos| #[trigger] m.in_bounds(p) implies m.cell(p) == d by {
            assert(grid_view(m.data@)[p.x as int][p.y as int] == d);
        }
        m
    }

    /// Whether the grid has a cell and all its columns are equally long.
    pub fn is_wf(&self) -> (r: bool)
        ensures
            r == self.wf(),
    {
        let w = self.data.len();
        if w == 0 {
            return false;
        }
        let h = self.data[0].len();
        if h == 0 {
            return false;
        }
        let mut i: usize = 0;
        while i < w
            invariant
                w == self@.len(),
                w >= 1,
                h == self@[0].len(),
                i <= w,
                forall|k: int| 0 <= k < i ==> #[trigger] self@[k].len() == h,
            decreases w - i,
        {
            assert(self@[i as int] == self.data@[i as int]@);
            if self.data[i].len() != h {
                return false;
            }
            i = i + 1;
        }
        true
    }

    pub fn x_len(&self) -> (r: usize)
        requires
            self.wf(),
        ensures
            r == self.width(),
    {
        self.data.len()
    }

    pub fn y_len(&self) -> (r: usize)
        requires
            self.wf(),
        ensures
            r == self.height(),
    {
        self.data[0].len()
    }

    pub fn x_max(&self) -> (r: usize)
        requires
            self.wf(),
        ensures
            r == self.width() - 1,
    {
        self.x_len() - 1
    }

    pub fn y_max(&self) -> (r: usize)
        requires
            self.wf(),
        ensures
            r == self.height() - 1,
    {
        self.y_len() - 1
    }

    pub fn get(&self, x: usize, y: usize) -> (r: MapCell)
        requires
            self.wf(),
            x < self.width(),
            y < self.height(),
        ensures
            r == self.cell(Pos { x, y }),
    {
        self.data[x][y]
    }

    /// The cell at `p`.
    pub fn at(&self, p: Pos) -> (r: MapCell)
        requires
            self.wf(),
            self.in_bounds(p),
        ensures
            r == self.cell(p),
    {
        self.get(p.x, p.y)
    }

    /// Overwrites the cell at `p`.
    pub fn set(&mut self, p: Pos, c: MapCell)
        requires
            old(self).wf(),
            old(self).in_bounds(p),
        ensures
            final(self)@ == old(self)@.update(p.x as int, old(self)@[p.x as int].update(p.y as int, c)),
            final(self).wf(),
            final(self).width() == old(self).width(),
            final(self).height() == old(self).height(),
    {
        set2(&mut self.data, p.x, p.y, c);
    }

    pub fn rect(&self) -> (r: Rect)
        requires
            self.wf(),
        ensures
            r == self.rect_spec(),
            r.wf(),
    {
        Rect { min_x: 0, min_y: 0, max_x: self.x_len() - 1, max_y: self.y_len() - 1 }
    }

    /// A walk over every position of the grid, rows upwards, each row left to right.
    pub fn iter_points(&self) -> (r: RectIterator)
        requires
            self.wf(),
        ensures
            r.wf(),
            r.rect() == self.rect_spec(),
            r.index() == 0,
    {
        self.rect().into_iter()
    }
}

/// No cell of the grid holds a diamond.
pub open spec fn no_diamonds(g: Seq<Seq<MapCell>>) -> bool {
    forall|i: int, j: int| 0 <= i < g.len() && 0 <= j < g[i].len() ==> #[trigger] g[i][j].tile != Tile::Diamond
}

/// The position of the first player cell in row-major order, if any.
pub open spec fn first_player(g: Seq<Seq<MapCell>>, p: Pos) -> bool {
    &&& p.x < g.len()
    &&& p.y < g[p.x as int].len()
    &&& g[p.x as int][p.y as int].tile == Tile::Player
    &&& forall|i: int, j: int|
        0 <= i < g.len() && 0 <= j < g[i].len() && (j < p.y || (j == p.y && i < p.x))
            ==> #[trigger] g[i][j].tile != Tile::Player
}

/// Some cell of the grid holds the player.
pub open spec fn has_player(g: Seq<Seq<MapCell>>) -> bool {
    exists|i: int, j: int| 0 <= i < g.len() && 0 <= j < g[i].len() && #[trigger] g[i][j].tile == Tile::Player
}

impl LevelMap {
    pub fn has_no_diamonds(&self) -> (r: bool)
        requires
            self.wf(),
        ensures
            r == no_diamonds(self@),
    {
        let w = self.x_len();
        let h = self.y_len();
        let mut y: usize = 0;
        while y < h
            invariant
                self.wf(),
                w == self.width(),
                h == self.height(),
                y <= h,
                forall|i: int, j: int| 0 <= i < w && 0 <= j < y ==> #[trigger] self@[i][j].tile != Tile::Diamond,
            decreases h - y,
        {
            let mut x: usize = 0;
            while x < w
                invariant
                    self.wf(),
                    w == self.width(),
                    h == self.height(),
                    y < h,
                    x <= w,
                    forall|i: int, j: int|
                        0 <= i < w && 0 <= j < h && (j < y || (j == y && i < x))
                            ==> #[trigger] self@[i][j].tile != Tile::Diamond,
                decreases w - x,
            {
                if self.get(x, y).tile == Tile::Diamond {
                    return false;
                }
                x = x + 1;
            }
            y = y + 1;
        }
        true
    }

    /// The first player cell, rows upwards and each row left to right.
    pub fn find_player(&self) -> (r: Option<Pos>)
        requires
            self.wf(),
        ensures
            r matches Some(p) ==> first_player(self@, p),
            r is None <==> !has_player(self@),
    {
        let w = self.x_len();
        let h = self.y_len();
        let mut y: usize = 0;
        while y < h
            invariant
                self.wf(),
                w == self.width(),
                h == self.height(),
                y <= h,
                forall|i: int, j: int| 0 <= i < w && 0 <= j < y ==> #[trigger] self@[i][j].tile != Tile::Player,
            decreases h - y,
        {
            let mut x: usize = 0;
            while x < w
                invariant
                    self.wf(),
                    w == self.width(),
                    h == self.height(),
                    y < h,
                    x <= w,
                    forall|i: int, j: int|
                        0 <= i < w && 0 <= j < h && (j < y || (j == y && i < x))
                            ==> #[trigger] self@[i][j].tile != Tile::Player,
                decreases w - x,
            {
                if self.get(x, y).tile == Tile::Player {
                    return Some(Pos { x, y });
                }
                x = x + 1;
            }
            y = y + 1;
        }
        None
    }
}

/// A character that some tile is written as.
pub open spec fn is_glyph(c: char) -> bool {
    exists|t: Tile| glyph_of(t) == c
}

/// Level rows, top row first: at least one, all equally long and non-empty,
/// every character a tile's glyph.
pub open spec fn rows_ok(rows: Seq<Seq<char>>) -> bool {
    &&& rows.len() >= 1
    &&& rows[0].len() >= 1
    &&& forall|i: int| 0 <= i < rows.len() ==> #[trigger] rows[i].len() == rows[0].len()
    &&& forall|i: int, j: int| 0 <= i < rows.len() && 0 <= j < rows[i].len() ==> is_glyph(#[trigger] rows[i][j])
}

impl LevelMap {
    /// The grid that level rows describe, the first row being the top one;
    /// every cell starts cool and without a facing. `None` when the rows are
    /// not a level.
    pub fn from_rows(rows: &Vec<Vec<char>>) -> (r: Option<LevelMap>)
        ensures
            r is Some <==> rows_ok(rows@.map_values(|v: Vec<char>| v@)),
            r matches Some(m) ==> {
                &&& m.wf()
                &&& m.width() == rows@[0]@.len()
                &&& m.height() == rows@.len()
                &&& forall|p: Pos| #[trigger] m.in_bounds(p) ==> m.cell(p) == (MapCell {
                    tile: m.cell(p).tile,
                    cool_down: 0,
                    facing: None,
                }) && glyph_of(m.cell(p).tile) == rows@[rows@.len() - 1 - p.y]@[p.x as int]
            },
    {
        let ghost g = rows@.map_values(|v: Vec<char>| v@);
        let h = rows.len();
        if h == 0 {
            return None;
        }
        let w = rows[0].len();
        if w == 0 {
            return None;
        }
        let mut m = LevelMap::new(w, h);
        let mut i: usize = 0;
        while i < h
            invariant
                g == rows@.map_values(|v: Vec<char>| v@),
                h == rows@.len(),
                w == rows@[0]@.len(),
                w >= 1,
                h >= 1,
                i <= h,
                m.wf(),
                m.width() == w,
                m.height() == h,
                forall|k: int| 0 <= k < i ==> #[trigger] g[k].len() == w,
                forall|k: int, j: int| 0 <= k < i && 0 <= j < g[k].len() ==> is_glyph(#[trigger] g[k][j]),
                forall|p: Pos| #[trigger] m.in_bounds(p) ==> m.cell(p).cool_down == 0 && m.cell(p).facing is None,
                forall|p: Pos|
                    #[trigger] m.in_bounds(p) && h - 1 - p.y < i ==> glyph_of(m.cell(p).tile) == g[h - 1 - p.y][p.x as int],
            decreases h - i,
        {
            assert(g[i as int] == rows@[i as int]@);
            if rows[i].len() != w {
                return None;
            }
            let y = h - 1 - i;
            let mut x: usize = 0;
            while x < w
                invariant
                    g == rows@.map_values(|v: Vec<char>| v@),
                    h == rows@.len(),
                    w == rows@[0]@.len(),
                    i < h,
                    y == h - 1 - i,
                    g[i as int].len() == w,
                    x <= w,
                    m.wf(),
                    m.width() == w,
                    m.height() == h,
                    forall|k: int| 0 <= k < i ==> #[trigger] g[k].len() == w,
                    forall|k: int, j: int| 0 <= k < i && 0 <= j < g[k].len() ==> is_glyph(#[trigger] g[k][j]),
                    forall|j: int| 0 <= j < x ==> is_glyph(#[trigger] g[i as int][j]),
                    forall|p: Pos| #[trigger] m.in_bounds(p) ==> m.cell(p).cool_down == 0 && m.cell(p).facing is None,
                    forall|p: Pos|
                        #[trigger] m.in_bounds(p) && (h - 1 - p.y < i || (p.y == y && p.x < x)) ==> glyph_of(
                            m.cell(p).tile,
                        ) == g[h - 1 - p.y][p.x as int],
                decreases w - x,
            {
                let c = rows[i][x];
                match Tile::from_glyph(c) {
                    Some(t) => {
                        let ghost prev = m;
                        assert(c == g[i as int][x as int]);
                        m.set(Pos { x, y }, MapCell { tile: t, cool_down: 0, facing: None });
                        proof {
                            assert(glyph_of(t) == g[i as int][x as int]);
                            assert forall|p: Pos| #[trigger] m.in_bounds(p) implies m.cell(p).cool_down == 0
                                && m.cell(p).facing is None by {
                                assert(prev.in_bounds(p));
                            }
                            assert forall|p: Pos|
                                #[trigger] m.in_bounds(p) && (h - 1 - p.y < i || (p.y == y && p.x < x + 1)) implies glyph_of(
                                m.cell(p).tile,
                            ) == g[h - 1 - p.y][p.x as int] by {
                                assert(prev.in_bounds(p));
                            }
                        }
                    },
                    None => {
                        proof {
                            if rows_ok(g) {
                                assert(is_glyph(g[i as int][x as int]));
                            }
                        }
                        return None;
                    },
                }
                x = x + 1;
            }
            i = i + 1;
        }
        assert forall|p: Pos| #[trigger] m.in_bounds(p) implies m.cell(p) == (MapCell {
            tile: m.cell(p).tile,
            cool_down: 0,
            facing: None,
        }) && glyph_of(m.cell(p).tile) == rows@[rows@.len() - 1 - p.y]@[p.x as int] by {
            assert(g[h - 1 - p.y] == rows@[h - 1 - p.y]@);
        }
        Some(m)
    }
}

/// A walk over a borrowed grid, handing out each position with its cell,
/// rows upwards and each row left to right.
pub struct LevelIterator<'a> {
    i: RectIterator,
    m: &'a LevelMap,
}

impl<'a> LevelIterator<'a> {
    pub closed spec fn grid(&self) -> Seq<Seq<MapCell>> {
        self.m@
    }

    pub closed spec fn rect(&self) -> Rect {
        self.i.rect()
    }

    pub closed spec fn index(&self) -> int {
        self.i.index()
    }

    pub closed spec fn wf(&self) -> bool {
        &&& self.m.wf()
        &&& self.i.wf()
        &&& self.i.rect() == self.m.rect_spec()
        &&& self.m.width() <= usize::MAX
        &&& self.m.height() <= usize::MAX
    }

    /// The next position and its cell, or `None` once all were handed out.
    pub fn next(&mut self) -> (res: Option<(Pos, MapCell)>)
        requires
            old(self).wf(),
        ensures
            final(self).wf(),
            final(self).grid() == old(self).grid(),
            final(self).rect() == old(self).rect(),
            old(self).index() < old(self).rect().points().len() ==> {
                let p = old(self).rect().points()[old(self).index()];
                &&& res == Some((p, old(self).grid()[p.x as int][p.y as int]))
                &&& final(self).index() == old(self).index() + 1
            },
            old(self).index() >= old(self).rect().points().len() ==> {
                &&& res is None
                &&& final(self).index() == old(self).index()
            },
    {
        let ghost k = self.i.index();
        match self.i.next() {
            Some(p) => {
                proof {
                    lemma_mod_pos_bound(k, self.m.width());
                    lemma_multiply_divide_lt(k, self.m.width(), self.m.height());
                }
                Some((p, self.m.get(p.x, p.y)))
            },
            None => None,
        }
    }
}

/// A walk over an owned grid, handing out each position with its cell,
/// rows upwards and each row left to right.
pub struct LevelIntoIterator {
    i: RectIterator,
    m: LevelMap,
}

impl LevelIntoIterator {
    pub closed spec fn grid(&self) -> Seq<Seq<MapCell>> {
        self.m@
    }

    pub closed spec fn rect(&self) -> Rect {
        self.i.rect()
    }

    pub closed spec fn index(&self) -> int {
        self.i.index()
    }

    pub closed spec fn wf(&self) -> bool {
        &&& self.m.wf()
        &&& self.i.wf()
        &&& self.i.rect() == self.m.rect_spec()
        &&& self.m.width() <= usize::MAX
        &&& self.m.height() <= usize::MAX
    }

    /// The next position and its cell, or `None` once all were handed out.
    pub fn next(&mut self) -> (res: Option<(Pos, MapCell)>)
        requires
            old(self).wf(),
        ensures
            final(self).wf(),
            final(self).grid() == old(self).grid(),
            final(self).rect() == old(self).rect(),
            old(self).index() < old(self).rect().points().len() ==> {
                let p = old(self).rect().points()[old(self).index()];
                &&& res == Some((p, old(self).grid()[p.x as int][p.y as int]))
                &&& final(self).index() == old(self).index() + 1
            },
            old(self).index() >= old(self).rect().points().len() ==> {
                &&& res is None
                &&& final(self).index() == old(self).index()
            },
    {
        let ghost k = self.i.index();
        match self.i.next() {
            Some(p) => {
                proof {
                    lemma_mod_pos_bound(k, self.m.width());
                    lemma_multiply_divide_lt(k, self.m.width(), self.m.height());
                }
                Some((p, self.m.get(p.x, p.y)))
            },
            None => None,
        }
    }
}

impl LevelMap {
    /// A walk over the grid's positions and cells.
    pub fn iter(&self) -> (r: LevelIterator<'_>)
        requires
            self.wf(),
        ensures
            r.wf(),
            r.grid() == self@,
            r.rect() == self.rect_spec(),
            r.index() == 0,
    {
        // Both lengths are `usize`s.
        let _ = (self.x_len(), self.y_len());
        LevelIterator { i: self.iter_points(), m: self }
    }

    /// A walk over the grid's positions and cells that owns the grid.
    pub fn into_iter(self) -> (r: LevelIntoIterator)
        requires
            self.wf(),
        ensures
            r.wf(),
            r.grid() == self@,
            r.rect() == self.rect_spec(),
            r.index() == 0,
    {
        // Both lengths are `usize`s.
        let _ = (self.x_len(), self.y_len());
        let i = self.iter_points();
        LevelIntoIterator { i, m: self }
    }
}

} // verus!
