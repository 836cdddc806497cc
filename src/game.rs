use crate::mapping::{grid_view, is_grid, make_2d_vec, no_diamonds, set2, LevelMap, MapCell, Tile};
use crate::pos::{Direction, Pos};
use crate::util::{select_random, select_random_direction};
use vstd::prelude::*;

verus! {

/// Everything one level attempt needs: the grid, the player's request for
/// this turn, and the counters that carry over between turns.
pub struct GameState {
    pub map: LevelMap,
    pub player_alive: bool,
    pub player_command: Option<Direction>,
    pub turn: i64,
    pub score: i64,
    pub crush_resistance: i64,
    pub crush: i64,
    pub level_complete: bool,
    pub player_lives: i64,
}

/// The random choices a cell may use during one turn: which way a blocked
/// boulder tries to roll, and the facing a monster picks.
#[derive(Copy, Clone, Debug)]
pub struct Roll {
    pub roll_left: bool,
    pub facing: Direction,
}

/// The state of a turn in progress.
pub struct Sim {
    pub cells: Seq<Seq<MapCell>>,
    pub touched: Seq<Seq<bool>>,
    pub alive: bool,
    pub crush: int,
    pub score: int,
    pub complete: bool,
}

/// What stays fixed during a turn.
pub struct TurnInput {
    pub resistance: int,
    pub command: Option<Direction>,
    pub rolls: Seq<Seq<Roll>>,
}

pub open spec fn at<T>(g: Seq<Seq<T>>, p: Pos) -> T {
    g[p.x as int][p.y as int]
}

pub open spec fn put<T>(g: Seq<Seq<T>>, p: Pos, v: T) -> Seq<Seq<T>> {
    g.update(p.x as int, g[p.x as int].update(p.y as int, v))
}

/// A tile that never acts and that nothing moves into: a wall, or the exit.
pub open spec fn impassable(t: Tile) -> bool {
    t == Tile::Wall || t == Tile::Exit
}

/// Every cell on the outer edge of a `w` by `h` grid is impassable.
pub open spec fn bordered(g: Seq<Seq<MapCell>>, w: int, h: int) -> bool {
    forall|i: int, j: int|
        0 <= i < w && 0 <= j < h && (i == 0 || j == 0 || i == w - 1 || j == h - 1)
            ==> impassable(#[trigger] g[i][j].tile)
}

/// Every cell's cooldown one lower.
pub open spec fn cooled(g: Seq<Seq<MapCell>>) -> Seq<Seq<MapCell>> {
    Seq::new(
        g.len(),
        |i: int| Seq::new(g[i].len(), |j: int| MapCell { cool_down: (g[i][j].cool_down - 1) as i64, ..g[i][j] }),
    )
}

/// The occupant of `from` moves to `to` as `tile`, with a fresh cooldown and
/// the given facing; `to` counts as resolved for the rest of the turn.
pub open spec fn move_to(s: Sim, from: Pos, to: Pos, tile: Tile, cd: i64, facing: Option<Direction>) -> Sim {
    Sim {
        cells: put(
            put(s.cells, from, MapCell { tile: Tile::Empty, ..at(s.cells, from) }),
            to,
            MapCell { tile, cool_down: cd, facing },
        ),
        touched: put(s.touched, to, true),
        ..s
    }
}

/// A boulder at `p` drops onto `to`.
pub open spec fn fall(s: Sim, p: Pos, to: Pos) -> Sim {
    move_to(s, p, to, Tile::Boulder, 20, at(s.cells, to).facing)
}

/// A boulder at `p` rests on the player at `to`: the player holds out while
/// `crush` is positive, else is crushed.
pub open spec fn press(s: Sim, p: Pos, to: Pos) -> Sim {
    if s.crush == 0 {
        Sim { alive: false, ..fall(s, p, to) }
    } else {
        Sim { crush: s.crush - 1, ..s }
    }
}

pub open spec fn boulder_rule(s: Sim, p: Pos, roll_left: bool) -> Sim {
    let below = p.step(Direction::Down);
    if at(s.cells, below).tile == Tile::Player {
        press(s, p, below)
    } else if at(s.cells, below).tile == Tile::Empty {
        fall(s, p, below)
    } else {
        let d = if roll_left { Direction::Left } else { Direction::Right };
        let side = p.step(d);
        let diag = below.step(d);
        if at(s.cells, diag).tile == Tile::Empty && at(s.cells, side).tile == Tile::Empty {
            fall(s, p, diag)
        } else if at(s.cells, diag).tile == Tile::Player && at(s.cells, side).tile == Tile::Empty {
            press(s, p, diag)
        } else {
            s
        }
    }
}

pub open spec fn monster_rule(s: Sim, p: Pos, new_facing: Direction) -> Sim {
    let c = at(s.cells, p);
    match c.facing {
        None => Sim { cells: put(s.cells, p, MapCell { facing: Some(new_facing), ..c }), ..s },
        Some(dir) => {
            let r = p.step(dir);
            if at(s.cells, r).tile == Tile::Empty {
                move_to(s, p, r, Tile::Monster, 7, c.facing)
            } else if at(s.cells, r).tile == Tile::Player {
                Sim { alive: false, ..move_to(s, p, r, Tile::Monster, 7, c.facing) }
            } else {
                Sim { cells: put(s.cells, p, MapCell { facing: Some(new_facing), cool_down: 10, ..c }), ..s }
            }
        },
    }
}

pub open spec fn player_rule(s: Sim, p: Pos, command: Option<Direction>, resistance: int) -> Sim {
    match command {
        None => s,
        Some(d) => {
            let r = p.step(d);
            let t = at(s.cells, r).tile;
            if t == Tile::Empty || t == Tile::Mud {
                Sim { crush: resistance, ..move_to(s, p, r, Tile::Player, 10, at(s.cells, r).facing) }
            } else if t == Tile::Diamond {
                Sim {
                    crush: resistance,
                    score: s.score + 1,
                    ..move_to(s, p, r, Tile::Player, 10, at(s.cells, r).facing)
                }
            } else if t == Tile::Monster {
                Sim { cells: put(s.cells, p, MapCell { tile: Tile::Empty, ..at(s.cells, p) }), alive: false, ..s }
            } else if t == Tile::Exit {
                if no_diamonds(s.cells) {
                    Sim { complete: true, ..s }
                } else {
                    s
                }
            } else {
                s
            }
        },
    }
}

/// The pass reaching position `p`: an unresolved cell is marked resolved and,
/// if its cooldown has run out, its occupant acts by the rule of its tile.
pub open spec fn act(s: Sim, p: Pos, inp: TurnInput) -> Sim {
    if at(s.touched, p) {
        s
    } else {
        let s1 = Sim { touched: put(s.touched, p, true), ..s };
        let c = at(s1.cells, p);
        let roll = at(inp.rolls, p);
        if c.cool_down > 0 {
            s1
        } else {
            match c.tile {
                Tile::Boulder => boulder_rule(s1, p, roll.roll_left),
                Tile::Monster => monster_rule(s1, p, roll.facing),
                Tile::Player => player_rule(s1, p, inp.command, inp.resistance),
                _ => s1,
            }
        }
    }
}

/// The first `x` cells of row `y`, left to right.
pub open spec fn run_row(s: Sim, y: int, x: int, inp: TurnInput) -> Sim
    decreases x,
{
    if x <= 0 {
        s
    } else {
        act(run_row(s, y, x - 1, inp), Pos { x: (x - 1) as usize, y: y as usize }, inp)
    }
}

/// The first `y` rows, upwards, each of width `w`.
pub open spec fn run_rows(s: Sim, y: int, w: int, inp: TurnInput) -> Sim
    decreases y,
{
    if y <= 0 {
        s
    } else {
        run_row(run_rows(s, y - 1, w, inp), y - 1, w, inp)
    }
}

/// A well-formed turn in progress on a `w` by `h` grid.
pub open spec fn sim_wf(s: Sim, w: int, h: int, inp: TurnInput) -> bool {
    &&& is_grid(s.cells, w, h)
    &&& is_grid(s.touched, w, h)
    &&& bordered(s.cells, w, h)
    &&& s.crush >= 0
    &&& inp.resistance >= 0
    &&& is_grid(inp.rolls, w, h)
}

/// A turn step keeps the grid's shape and walled border, and raises the
/// score by at most one.
pub proof fn lemma_act_wf(s: Sim, p: Pos, w: int, h: int, inp: TurnInput)
    requires
        sim_wf(s, w, h, inp),
        p.x < w,
        p.y < h,
    ensures
        sim_wf(act(s, p, inp), w, h, inp),
        s.score <= act(s, p, inp).score <= s.score + 1,
{
    let c = at(s.cells, p);
    if !at(s.touched, p) && c.cool_down <= 0 && (c.tile == Tile::Boulder || c.tile == Tile::Monster
        || c.tile == Tile::Player) {
        assert(!impassable(c.tile));
        assert(1 <= p.x < w - 1 && 1 <= p.y < h - 1);
    }
}

impl GameState {
    /// The fixed inputs of the next turn, given the random choices.
    pub open spec fn turn_input(&self, rolls: Seq<Seq<Roll>>) -> TurnInput {
        TurnInput { resistance: self.crush_resistance as int, command: self.player_command, rolls }
    }

    /// The turn in progress, with the given marks of resolved cells.
    pub open spec fn sim(&self, touched: Seq<Seq<bool>>) -> Sim {
        Sim {
            cells: self.map@,
            touched,
            alive: self.player_alive,
            crush: self.crush as int,
            score: self.score as int,
            complete: self.level_complete,
        }
    }

    /// The turn's starting point: all cooldowns one lower, nothing resolved.
    pub open spec fn start(&self) -> Sim {
        Sim {
            cells: cooled(self.map@),
            touched: Seq::new(self.map.width() as nat, |i: int| Seq::new(self.map.height() as nat, |j: int| false)),
            alive: self.player_alive,
            crush: self.crush as int,
            score: self.score as int,
            complete: self.level_complete,
        }
    }

    /// The state after one whole turn with the given random choices.
    pub open spec fn outcome(&self, rolls: Seq<Seq<Roll>>) -> Sim {
        run_rows(self.start(), self.map.height(), self.map.width(), self.turn_input(rolls))
    }

    /// `self` is what one turn made of `prev`, given the random choices.
    pub open spec fn follows(self, prev: GameState, rolls: Seq<Seq<Roll>>) -> bool {
        let out = prev.outcome(rolls);
        &&& self.map.wf()
        &&& self.map@ == out.cells
        &&& self.player_alive == out.alive
        &&& self.crush == out.crush
        &&& self.score == out.score
        &&& self.level_complete == out.complete
        &&& self.turn == prev.turn + 1
        &&& self.player_command == prev.player_command
        &&& self.crush_resistance == prev.crush_resistance
        &&& self.player_lives == prev.player_lives
    }

    /// What a turn needs of the state before it.
    pub open spec fn ready(&self) -> bool {
        &&& self.map.wf()
        &&& bordered(self.map@, self.map.width(), self.map.height())
        &&& forall|i: int, j: int|
            0 <= i < self.map.width() && 0 <= j < self.map.height() ==> #[trigger] self.map@[i][j].cool_down
                > i64::MIN
        &&& self.turn < i64::MAX
        &&& self.crush >= 0
        &&& self.crush_resistance >= 0
        &&& self.score + self.map.width() * self.map.height() <= i64::MAX
    }

    /// Whether the state meets what a turn needs of it.
    pub fn is_ready(&self) -> (r: bool)
        ensures
            r == self.ready(),
    {
        if !self.map.is_wf() {
            return false;
        }
        let w = self.map.x_len();
        let h = self.map.y_len();
        let mut x: usize = 0;
        while x < w
            invariant
                self.map.wf(),
                w == self.map.width(),
                h == self.map.height(),
                x <= w,
                forall|i: int, j: int|
                    0 <= i < x && 0 <= j < h ==> #[trigger] self.map@[i][j].cool_down > i64::MIN && (i == 0 || j
                        == 0 || i == w - 1 || j == h - 1 ==> impassable(self.map@[i][j].tile)),
            decreases w - x,
        {
            let mut y: usize = 0;
            while y < h
                invariant
                    self.map.wf(),
                    w == self.map.width(),
                    h == self.map.height(),
                    x < w,
                    y <= h,
                    forall|i: int, j: int|
                        0 <= i < w && 0 <= j < h && (i < x || (i == x && j < y)) ==> #[trigger] self.map@[i][j].cool_down
                            > i64::MIN && (i == 0 || j == 0 || i == w - 1 || j == h - 1 ==> impassable(self.map@[i][j].tile)),
                decreases h - y,
            {
                let c = self.map.get(x, y);
                if c.cool_down == i64::MIN {
                    return false;
                }
                if (x == 0 || y == 0 || x == w - 1 || y == h - 1) && c.tile != Tile::Wall && c.tile != Tile::Exit {
                    return false;
                }
                y = y + 1;
            }
            x = x + 1;
        }
        if self.turn == i64::MAX || self.crush < 0 || self.crush_resistance < 0 {
            return false;
        }
        assert((w as int) * (h as int) <= u128::MAX) by (nonlinear_arith)
            requires 0 <= w <= u64::MAX, 0 <= h <= u64::MAX;
        let area: u128 = (w as u128) * (h as u128);
        let room: u128 = (i64::MAX as i128 - self.score as i128) as u128;
        assert(area == self.map.width() * self.map.height());
        assert(room == i64::MAX - self.score);
        assert forall|i: int, j: int|
            0 <= i < w && 0 <= j < h && (i == 0 || j == 0 || i == w - 1 || j == h - 1) implies impassable(#[trigger] self.map@[i][j].tile) by {
            assert(self.map@[i][j].cool_down > i64::MIN);
        }
        assert(bordered(self.map@, w as int, h as int));
        area <= room
    }

    /// A fresh attempt at a level, keeping the score and lives carried over.
    pub fn new(level_map: LevelMap, score: i64, lives: i64) -> (g: GameState)
        ensures
            g.map@ == level_map@,
            g.player_command is None,
            g.player_alive,
            g.turn == 0,
            g.score == score,
            g.crush_resistance == 30,
            g.crush == 30,
            !g.level_complete,
            g.player_lives == lives,
    {
        GameState {
            map: level_map,
            player_command: None,
            player_alive: true,
            turn: 0,
            score,
            crush_resistance: 30,
            crush: 30,
            level_complete: false,
            player_lives: lives,
        }
    }
}

/// Lowers every cell's cooldown by one.
fn cool_all(m: &mut LevelMap)
    requires
        old(m).wf(),
        forall|i: int, j: int|
            0 <= i < old(m).width() && 0 <= j < old(m).height() ==> #[trigger] old(m)@[i][j].cool_down
                > i64::MIN,
    ensures
        final(m).wf(),
        final(m)@ == cooled(old(m)@),
{
    let ghost o = m@;
    let w = m.x_len();
    let h = m.y_len();
    let mut x: usize = 0;
    while x < w
        invariant
            m.wf(),
            m.width() == w,
            m.height() == h,
            is_grid(o, w as int, h as int),
            x <= w,
            forall|i: int, j: int|
                0 <= i < old(m).width() && 0 <= j < old(m).height() ==> #[trigger] o[i][j].cool_down > i64::MIN,
            o == old(m)@,
            forall|i: int, j: int|
                0 <= i < w && 0 <= j < h ==> #[trigger] m@[i][j] == if i < x {
                    MapCell { cool_down: (o[i][j].cool_down - 1) as i64, ..o[i][j] }
                } else {
                    o[i][j]
                },
        decreases w - x,
    {
        let mut y: usize = 0;
        while y < h
            invariant
                m.wf(),
                m.width() == w,
                m.height() == h,
                is_grid(o, w as int, h as int),
                x < w,
                y <= h,
                forall|i: int, j: int|
                    0 <= i < old(m).width() && 0 <= j < old(m).height() ==> #[trigger] o[i][j].cool_down > i64::MIN,
                o == old(m)@,
                forall|i: int, j: int|
                    0 <= i < w && 0 <= j < h ==> #[trigger] m@[i][j] == if i < x || (i == x && j < y) {
                        MapCell { cool_down: (o[i][j].cool_down - 1) as i64, ..o[i][j] }
                    } else {
                        o[i][j]
                    },
            decreases h - y,
        {
            let p = Pos { x, y };
            let c = m.at(p);
            assert(c == o[x as int][y as int]);
            m.set(p, MapCell { cool_down: c.cool_down - 1, ..c });
            y = y + 1;
        }
        x = x + 1;
    }
    assert forall|i: int| 0 <= i < w implies #[trigger] m@[i] =~= cooled(o)[i] by {}
    assert(m@ =~= cooled(o));
}

/// Advances the game by one turn, with the random choices given per cell:
/// every cooldown drops by one, then each cell is resolved once, rows
/// upwards and each row left to right.
pub fn update_game_with(g: &mut GameState, rolls: &Vec<Vec<Roll>>)
    requires
        old(g).ready(),
        is_grid(grid_view(rolls@), old(g).map.width(), old(g).map.height()),
    ensures
        final(g).follows(*old(g), grid_view(rolls@)),
{
    let ghost g0 = *g;
    g.turn = g.turn + 1;
    let w = g.map.x_len();
    let h = g.map.y_len();
    cool_all(&mut g.map);
    let mut touched = make_2d_vec(w, h, false);
    let ghost s0 = g.sim(grid_view(touched@));
    let ghost inp = g.turn_input(grid_view(rolls@));
    proof {
        let st = g0.start();
        assert forall|i: int| 0 <= i < w implies #[trigger] grid_view(touched@)[i] =~= st.touched[i] by {}
        assert(grid_view(touched@) =~= st.touched);
        assert(s0 == st);
        assert(g0.turn_input(grid_view(rolls@)) == inp);
    }
    let mut y: usize = 0;
    while y < h
        invariant
            g.map.wf(),
            g.map.width() == w,
            g.map.height() == h,
            w == g0.map.width(),
            h == g0.map.height(),
            y <= h,
            g0.ready(),
            s0 == g0.start(),
            inp == g0.turn_input(grid_view(rolls@)),
            g.sim(grid_view(touched@)) == run_rows(s0, y as int, w as int, inp),
            sim_wf(g.sim(grid_view(touched@)), w as int, h as int, inp),
            g.score <= g0.score + y * w,
            g.turn == g0.turn + 1,
            g.player_command == g0.player_command,
            g.crush_resistance == g0.crush_resistance,
            g.player_lives == g0.player_lives,
        decreases h - y,
    {
        let mut x: usize = 0;
        while x < w
            invariant
                g.map.wf(),
                g.map.width() == w,
                g.map.height() == h,
                w == g0.map.width(),
                h == g0.map.height(),
                y < h,
                x <= w,
                g0.ready(),
                inp == g0.turn_input(grid_view(rolls@)),
                g.sim(grid_view(touched@)) == run_row(run_rows(s0, y as int, w as int, inp), y as int, x as int, inp),
                sim_wf(g.sim(grid_view(touched@)), w as int, h as int, inp),
                g.score <= g0.score + y * w + x,
                g.turn == g0.turn + 1,
                g.player_command == g0.player_command,
                g.crush_resistance == g0.crush_resistance,
                g.player_lives == g0.player_lives,
            decreases w - x,
        {
            let ghost before = g.sim(grid_view(touched@));
            proof {
                assert(y * w + x < w * h) by (nonlinear_arith)
                    requires 0 <= x < w, 0 <= y < h;
                lemma_act_wf(before, Pos { x, y }, w as int, h as int, inp);
            }
            step_cell(g, &mut touched, Pos { x, y }, rolls);
            x = x + 1;
        }
        proof {
            assert(y * w + w == (y + 1) * w) by (nonlinear_arith);
        }
        y = y + 1;
    }
}

/// Advances the game by one turn, drawing the random choices of every cell
/// from the thread-local generator.
pub fn update_game(g: &mut GameState)
    requires
        old(g).ready(),
    ensures
        exists|rolls: Seq<Seq<Roll>>|
            is_grid(rolls, old(g).map.width(), old(g).map.height()) && #[trigger] final(g).follows(*old(g), rolls),
{
    let w = g.map.x_len();
    let h = g.map.y_len();
    let mut rolls: Vec<Vec<Roll>> = Vec::new();
    let mut x: usize = 0;
    while x < w
        invariant
            x <= w,
            rolls@.len() == x,
            forall|i: int| 0 <= i < x ==> (#[trigger] rolls@[i])@.len() == h,
        decreases w - x,
    {
        let mut col: Vec<Roll> = Vec::new();
        let mut y: usize = 0;
        while y < h
            invariant
                y <= h,
                col@.len() == y,
            decreases h - y,
        {
            let roll_left = select_random(true, false);
            let facing = select_random_direction();
            col.push(Roll { roll_left, facing });
            y = y + 1;
        }
        rolls.push(col);
        x = x + 1;
    }
    update_game_with(g, &rolls);
}

/// Resolves the cell at `p` for the turn in progress.
fn step_cell(g: &mut GameState, touched: &mut Vec<Vec<bool>>, p: Pos, rolls: &Vec<Vec<Roll>>)
    requires
        old(g).map.wf(),
        sim_wf(
            old(g).sim(grid_view(old(touched)@)),
            old(g).map.width(),
            old(g).map.height(),
            old(g).turn_input(grid_view(rolls@)),
        ),
        old(g).map.in_bounds(p),
        old(g).score < i64::MAX,
    ensures
        final(g).map.wf(),
        final(g).map.width() == old(g).map.width(),
        final(g).map.height() == old(g).map.height(),
        final(g).sim(grid_view(final(touched)@)) == act(
            old(g).sim(grid_view(old(touched)@)),
            p,
            old(g).turn_input(grid_view(rolls@)),
        ),
        final(g).turn == old(g).turn,
        final(g).player_command == old(g).player_command,
        final(g).crush_resistance == old(g).crush_resistance,
        final(g).player_lives == old(g).player_lives,
{
    let ghost s0 = g.sim(grid_view(touched@));
    let ghost w = g.map.width();
    let ghost h = g.map.height();
    assert(grid_view(touched@)[p.x as int] == touched@[p.x as int]@);
    if touched[p.x][p.y] {
        return;
    }
    set2(touched, p.x, p.y, true);
    let c = g.map.at(p);
    if !c.is_cool() {
        return;
    }
    let xl = g.map.x_len();
    let yl = g.map.y_len();
    proof {
        if !impassable(c.tile) {
            assert(1 <= p.x < w - 1 && 1 <= p.y < h - 1);
        }
    }
    assert(grid_view(rolls@)[p.x as int] == rolls@[p.x as int]@);
    let roll = rolls[p.x][p.y];
    match c.tile {
        Tile::Boulder => boulder_exec(g, touched, p, roll.roll_left),
        Tile::Monster => monster_exec(g, touched, p, roll.facing),
        Tile::Player => player_exec(g, touched, p),
        _ => {},
    }
}

/// A ready boulder at `p` falls, rolls, presses the player, or stays.
fn boulder_exec(g: &mut GameState, touched: &mut Vec<Vec<bool>>, p: Pos, roll_left: bool)
    requires
        old(g).map.wf(),
        is_grid(grid_view(old(touched)@), old(g).map.width(), old(g).map.height()),
        bordered(old(g).map@, old(g).map.width(), old(g).map.height()),
        old(g).crush >= 0,
        old(g).map.in_bounds(p),
        1 <= p.x < old(g).map.width() - 1,
        1 <= p.y < old(g).map.height() - 1,
        old(g).map.width() <= usize::MAX,
        old(g).map.height() <= usize::MAX,
        old(g).score < i64::MAX,
    ensures
        final(g).map.wf(),
        final(g).map.width() == old(g).map.width(),
        final(g).map.height() == old(g).map.height(),
        final(g).sim(grid_view(final(touched)@)) == boulder_rule(old(g).sim(grid_view(old(touched)@)), p, roll_left),
        final(g).turn == old(g).turn,
        final(g).player_command == old(g).player_command,
        final(g).crush_resistance == old(g).crush_resistance,
        final(g).player_lives == old(g).player_lives,
{
    let below = p.down();
    let cb = g.map.at(below);
    if cb.tile == Tile::Player {
        press_exec(g, touched, p, below);
    } else if cb.is_empty() {
        fall_exec(g, touched, p, below);
    } else {
        let d = if roll_left { Direction::Left } else { Direction::Right };
        let side = p.to(d);
        let diag = below.to(d);
        let cd = g.map.at(diag);
        let cs = g.map.at(side);
        if cd.is_empty() && cs.is_empty() {
            fall_exec(g, touched, p, diag);
        } else if cd.tile == Tile::Player && cs.is_empty() {
            press_exec(g, touched, p, diag);
        }
    }
}

/// A ready monster at `p` walks on, catches the player, or turns.
fn monster_exec(g: &mut GameState, touched: &mut Vec<Vec<bool>>, p: Pos, new_facing: Direction)
    requires
        old(g).map.wf(),
        is_grid(grid_view(old(touched)@), old(g).map.width(), old(g).map.height()),
        bordered(old(g).map@, old(g).map.width(), old(g).map.height()),
        old(g).crush >= 0,
        old(g).map.in_bounds(p),
        1 <= p.x < old(g).map.width() - 1,
        1 <= p.y < old(g).map.height() - 1,
        old(g).map.width() <= usize::MAX,
        old(g).map.height() <= usize::MAX,
        old(g).score < i64::MAX,
    ensures
        final(g).map.wf(),
        final(g).map.width() == old(g).map.width(),
        final(g).map.height() == old(g).map.height(),
        final(g).sim(grid_view(final(touched)@)) == monster_rule(old(g).sim(grid_view(old(touched)@)), p, new_facing),
        final(g).turn == old(g).turn,
        final(g).player_command == old(g).player_command,
        final(g).crush_resistance == old(g).crush_resistance,
        final(g).player_lives == old(g).player_lives,
{
    let c = g.map.at(p);
    match c.facing {
        Some(dir) => {
            let r = p.to(dir);
            let cr = g.map.at(r);
            if cr.tile == Tile::Empty {
                move_exec(g, touched, p, r, Tile::Monster, 7, c.facing);
            } else if cr.tile == Tile::Player {
                move_exec(g, touched, p, r, Tile::Monster, 7, c.facing);
                g.player_alive = false;
            } else {
                g.map.set(p, MapCell { facing: Some(new_facing), cool_down: 10, ..c });
            }
        },
        None => {
            g.map.set(p, MapCell { facing: Some(new_facing), ..c });
        },
    }
}

/// A ready player at `p` follows this turn's command.
fn player_exec(g: &mut GameState, touched: &mut Vec<Vec<bool>>, p: Pos)
    requires
        old(g).map.wf(),
        is_grid(grid_view(old(touched)@), old(g).map.width(), old(g).map.height()),
        bordered(old(g).map@, old(g).map.width(), old(g).map.height()),
        old(g).crush >= 0,
        old(g).map.in_bounds(p),
        1 <= p.x < old(g).map.width() - 1,
        1 <= p.y < old(g).map.height() - 1,
        old(g).map.width() <= usize::MAX,
        old(g).map.height() <= usize::MAX,
        old(g).score < i64::MAX,
    ensures
        final(g).map.wf(),
        final(g).map.width() == old(g).map.width(),
        final(g).map.height() == old(g).map.height(),
        final(g).sim(grid_view(final(touched)@)) == player_rule(old(g).sim(grid_view(old(touched)@)), p, old(g).player_command, old(g).crush_resistance as int),
        final(g).turn == old(g).turn,
        final(g).player_command == old(g).player_command,
        final(g).crush_resistance == old(g).crush_resistance,
        final(g).player_lives == old(g).player_lives,
{
    let c = g.map.at(p);
    match g.player_command {
        Some(command) => {
            let r = p.to(command);
            let cr = g.map.at(r);
            match cr.tile {
                Tile::Empty | Tile::Mud => {
                    move_exec(g, touched, p, r, Tile::Player, 10, cr.facing);
                    g.crush = g.crush_resistance;
                },
                Tile::Diamond => {
                    move_exec(g, touched, p, r, Tile::Player, 10, cr.facing);
                    g.score = g.score + 1;
                    g.crush = g.crush_resistance;
                },
                Tile::Monster => {
                    g.map.set(p, MapCell { tile: Tile::Empty, ..c });
                    g.player_alive = false;
                },
                Tile::Exit => {
                    if g.map.has_no_diamonds() {
                        g.level_complete = true;
                    }
                },
                _ => {},
            }
        },
        None => {},
    }
}

/// The occupant of `from` moves to `to`.
fn move_exec(
    g: &mut GameState,
    touched: &mut Vec<Vec<bool>>,
    from: Pos,
    to: Pos,
    tile: Tile,
    cd: i64,
    facing: Option<Direction>,
)
    requires
        old(g).map.wf(),
        is_grid(grid_view(old(touched)@), old(g).map.width(), old(g).map.height()),
        old(g).map.in_bounds(from),
        old(g).map.in_bounds(to),
        from != to,
    ensures
        final(g).map.wf(),
        final(g).map.width() == old(g).map.width(),
        final(g).map.height() == old(g).map.height(),
        final(g).sim(grid_view(final(touched)@)) == move_to(
            old(g).sim(grid_view(old(touched)@)),
            from,
            to,
            tile,
            cd,
            facing,
        ),
        final(g).turn == old(g).turn,
        final(g).player_command == old(g).player_command,
        final(g).crush_resistance == old(g).crush_resistance,
        final(g).player_lives == old(g).player_lives,
{
    let cf = g.map.at(from);
    g.map.set(from, MapCell { tile: Tile::Empty, ..cf });
    g.map.set(to, MapCell { tile, cool_down: cd, facing });
    assert(grid_view(touched@)[to.x as int] == touched@[to.x as int]@);
    set2(touched, to.x, to.y, true);
}

/// A boulder at `p` drops onto `to`.
fn fall_exec(g: &mut GameState, touched: &mut Vec<Vec<bool>>, p: Pos, to: Pos)
    requires
        old(g).map.wf(),
        is_grid(grid_view(old(touched)@), old(g).map.width(), old(g).map.height()),
        old(g).map.in_bounds(p),
        old(g).map.in_bounds(to),
        p != to,
    ensures
        final(g).map.wf(),
        final(g).map.width() == old(g).map.width(),
        final(g).map.height() == old(g).map.height(),
        final(g).sim(grid_view(final(touched)@)) == fall(old(g).sim(grid_view(old(touched)@)), p, to),
        final(g).turn == old(g).turn,
        final(g).player_command == old(g).player_command,
        final(g).crush_resistance == old(g).crush_resistance,
        final(g).player_lives == old(g).player_lives,
{
    let ct = g.map.at(to);
    move_exec(g, touched, p, to, Tile::Boulder, 20, ct.facing);
}

/// A boulder at `p` rests on the player at `to`.
fn press_exec(g: &mut GameState, touched: &mut Vec<Vec<bool>>, p: Pos, to: Pos)
    requires
        old(g).map.wf(),
        is_grid(grid_view(old(touched)@), old(g).map.width(), old(g).map.height()),
        old(g).map.in_bounds(p),
        old(g).map.in_bounds(to),
        p != to,
        old(g).crush >= 0,
    ensures
        final(g).map.wf(),
        final(g).map.width() == old(g).map.width(),
        final(g).map.height() == old(g).map.height(),
        final(g).sim(grid_view(final(touched)@)) == press(old(g).sim(grid_view(old(touched)@)), p, to),
        final(g).turn == old(g).turn,
        final(g).player_command == old(g).player_command,
        final(g).crush_resistance == old(g).crush_resistance,
        final(g).player_lives == old(g).player_lives,
{
    if g.crush == 0 {
        g.player_alive = false;
        fall_exec(g, touched, p, to);
    } else {
        g.crush = g.crush - 1;
    }
}

} // verus!
