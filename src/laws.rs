use crate::game::{
    act, at, bordered, cooled, impassable, lemma_act_wf, put, run_row, run_rows, sim_wf, GameState, Roll, Sim,
    TurnInput,
};
use crate::mapping::is_grid;
use crate::mapping::{no_diamonds, MapCell, Tile};
use crate::pos::{Direction, Pos};
use vstd::prelude::*;

verus! {

/// A turn begins by lowering every cell's cooldown by exactly one, leaving
/// tiles and facings as they were.
pub proof fn lemma_turn_lowers_cooldowns(g: GameState, i: int, j: int)
    requires
        g.ready(),
        0 <= i < g.map.width(),
        0 <= j < g.map.height(),
    ensures
        g.start().cells == cooled(g.map@),
        g.start().cells[i][j].cool_down == g.map@[i][j].cool_down - 1,
        g.start().cells[i][j].tile == g.map@[i][j].tile,
        g.start().cells[i][j].facing == g.map@[i][j].facing,
{
}

/// A cell whose cooldown is still positive when the pass reaches it does
/// nothing: it is only marked resolved.
pub proof fn lemma_cooldown_gates(s: Sim, p: Pos, inp: TurnInput)
    requires
        !at(s.touched, p),
        at(s.cells, p).cool_down > 0,
    ensures
        act(s, p, inp) == (Sim { touched: put(s.touched, p, true), ..s }),
{
}

/// Each cell acts at most once per turn: a resolved cell is passed over,
/// the visited cell ends resolved, and resolved cells stay resolved.
#[verifier::rlimit(60)]
pub proof fn lemma_acts_at_most_once(s: Sim, p: Pos, w: int, h: int, inp: TurnInput)
    requires
        sim_wf(s, w, h, inp),
        p.x < w,
        p.y < h,
    ensures
        at(s.touched, p) ==> act(s, p, inp) == s,
        at(act(s, p, inp).touched, p),
        forall|q: Pos| q.x < w && q.y < h && at(s.touched, q) ==> #[trigger] at(act(s, p, inp).touched, q),
{
    let c = at(s.cells, p);
    if !impassable(c.tile) {
        assert(1 <= p.x < w - 1 && 1 <= p.y < h - 1);
    }
}

/// Every cell that one step of the pass changes is resolved afterwards, so
/// it does not act later in the same turn.
#[verifier::rlimit(60)]
pub proof fn lemma_changed_cells_resolved(s: Sim, p: Pos, q: Pos, w: int, h: int, inp: TurnInput)
    requires
        sim_wf(s, w, h, inp),
        p.x < w,
        p.y < h,
        q.x < w,
        q.y < h,
        at(act(s, p, inp).cells, q) != at(s.cells, q),
    ensures
        at(act(s, p, inp).touched, q),
{
    let c = at(s.cells, p);
    assert(!at(s.touched, p));
    assert(c.cool_down <= 0);
    assert(!impassable(c.tile));
    assert(1 <= p.x < w - 1 && 1 <= p.y < h - 1);
    if q != p {
        let roll = at(inp.rolls, p);
        if c.tile == Tile::Boulder {
            let below = p.step(Direction::Down);
            let d = if roll.roll_left { Direction::Left } else { Direction::Right };
            let diag = below.step(d);
            assert(q == below || q == diag);
        } else if c.tile == Tile::Monster {
            assert(c.facing is Some);
            assert(q == p.step(c.facing->0));
        } else {
            assert(c.tile == Tile::Player);
            assert(q == p.step(inp.command->0));
        }
    }
}

/// A ready boulder over an empty cell falls into it.
pub proof fn lemma_boulder_falls(s: Sim, p: Pos, w: int, h: int, inp: TurnInput)
    requires
        sim_wf(s, w, h, inp),
        p.x < w,
        p.y < h,
        !at(s.touched, p),
        at(s.cells, p).tile == Tile::Boulder,
        at(s.cells, p).cool_down <= 0,
        at(s.cells, p.step(Direction::Down)).tile == Tile::Empty,
    ensures
        at(act(s, p, inp).cells, p).tile == Tile::Empty,
        at(act(s, p, inp).cells, p.step(Direction::Down)).tile == Tile::Boulder,
        at(act(s, p, inp).cells, p.step(Direction::Down)).cool_down == 20,
{
    assert(1 <= p.x < w - 1 && 1 <= p.y < h - 1);
}

/// A ready boulder resting on the player wears the crush counter down by
/// one while it is positive, and crushes the player once it is zero.
pub proof fn lemma_boulder_crushes(s: Sim, p: Pos, w: int, h: int, inp: TurnInput)
    requires
        sim_wf(s, w, h, inp),
        p.x < w,
        p.y < h,
        !at(s.touched, p),
        at(s.cells, p).tile == Tile::Boulder,
        at(s.cells, p.step(Direction::Down)).tile == Tile::Player,
        at(s.cells, p).cool_down <= 0,
    ensures
        s.crush > 0 ==> {
            &&& act(s, p, inp).crush == s.crush - 1
            &&& act(s, p, inp).cells == s.cells
            &&& act(s, p, inp).alive == s.alive
        },
        s.crush == 0 ==> {
            &&& !act(s, p, inp).alive
            &&& at(act(s, p, inp).cells, p).tile == Tile::Empty
            &&& at(act(s, p, inp).cells, p.step(Direction::Down)).tile == Tile::Boulder
        },
{
    assert(1 <= p.x < w - 1 && 1 <= p.y < h - 1);
}

/// A ready player stepping onto a diamond scores exactly one, and the cell
/// it lands on is resolved, so it cannot act or score again this turn.
pub proof fn lemma_diamond_scores_once(s: Sim, p: Pos, d: Direction, w: int, h: int, inp: TurnInput)
    requires
        sim_wf(s, w, h, inp),
        p.x < w,
        p.y < h,
        !at(s.touched, p),
        at(s.cells, p).tile == Tile::Player,
        at(s.cells, p).cool_down <= 0,
        inp.command == Some(d),
        at(s.cells, p.step(d)).tile == Tile::Diamond,
    ensures
        act(s, p, inp).score == s.score + 1,
        at(act(s, p, inp).cells, p.step(d)).tile == Tile::Player,
        at(act(s, p, inp).touched, p.step(d)),
{
    assert(1 <= p.x < w - 1 && 1 <= p.y < h - 1);
}

/// A ready player stepping onto the exit completes the level exactly when
/// no diamond is left, and never moves onto it.
pub proof fn lemma_exit_gate(s: Sim, p: Pos, d: Direction, w: int, h: int, inp: TurnInput)
    requires
        sim_wf(s, w, h, inp),
        p.x < w,
        p.y < h,
        !at(s.touched, p),
        at(s.cells, p).tile == Tile::Player,
        at(s.cells, p).cool_down <= 0,
        inp.command == Some(d),
        at(s.cells, p.step(d)).tile == Tile::Exit,
    ensures
        act(s, p, inp).complete == (s.complete || no_diamonds(s.cells)),
        act(s, p, inp).cells == s.cells,
        act(s, p, inp).alive == s.alive,
{
    assert(1 <= p.x < w - 1 && 1 <= p.y < h - 1);
}

/// A boulder or monster that is still cooling is left exactly as it is by
/// any step of the pass.
proof fn lemma_act_keeps_cooling(s: Sim, q: Pos, p: Pos, w: int, h: int, inp: TurnInput)
    requires
        sim_wf(s, w, h, inp),
        q.x < w,
        q.y < h,
        p.x < w,
        p.y < h,
        at(s.cells, p).tile == Tile::Boulder || at(s.cells, p).tile == Tile::Monster,
        at(s.cells, p).cool_down > 0,
    ensures
        at(act(s, q, inp).cells, p) == at(s.cells, p),
{
    if at(act(s, q, inp).cells, p) != at(s.cells, p) {
        lemma_changed_cells_resolved(s, q, p, w, h, inp);
        let c = at(s.cells, q);
        assert(!impassable(c.tile));
        assert(1 <= q.x < w - 1 && 1 <= q.y < h - 1);
    }
}

proof fn lemma_row_keeps_cooling(s: Sim, y: int, x: int, p: Pos, w: int, h: int, inp: TurnInput)
    requires
        sim_wf(s, w, h, inp),
        0 <= y < h,
        0 <= x <= w,
        w <= usize::MAX,
        h <= usize::MAX,
        p.x < w,
        p.y < h,
        at(s.cells, p).tile == Tile::Boulder || at(s.cells, p).tile == Tile::Monster,
        at(s.cells, p).cool_down > 0,
    ensures
        sim_wf(run_row(s, y, x, inp), w, h, inp),
        at(run_row(s, y, x, inp).cells, p) == at(s.cells, p),
    decreases x,
{
    if x > 0 {
        lemma_row_keeps_cooling(s, y, x - 1, p, w, h, inp);
        let prev = run_row(s, y, x - 1, inp);
        let q = Pos { x: (x - 1) as usize, y: y as usize };
        lemma_act_wf(prev, q, w, h, inp);
        lemma_act_keeps_cooling(prev, q, p, w, h, inp);
    }
}

proof fn lemma_rows_keep_cooling(s: Sim, y: int, p: Pos, w: int, h: int, inp: TurnInput)
    requires
        sim_wf(s, w, h, inp),
        0 <= y <= h,
        w <= usize::MAX,
        h <= usize::MAX,
        p.x < w,
        p.y < h,
        at(s.cells, p).tile == Tile::Boulder || at(s.cells, p).tile == Tile::Monster,
        at(s.cells, p).cool_down > 0,
    ensures
        sim_wf(run_rows(s, y, w, inp), w, h, inp),
        at(run_rows(s, y, w, inp).cells, p) == at(s.cells, p),
    decreases y,
{
    if y > 0 {
        lemma_rows_keep_cooling(s, y - 1, p, w, h, inp);
        lemma_row_keeps_cooling(run_rows(s, y - 1, w, inp), y - 1, w, p, w, h, inp);
    }
}

/// Over a whole turn, a boulder or monster whose cooldown is still positive
/// after the turn's decrement does not act: it keeps its cell, tile and
/// facing, and its cooldown is one lower.
pub proof fn lemma_cooling_object_stays(g: GameState, rolls: Seq<Seq<Roll>>, p: Pos)
    requires
        g.ready(),
        is_grid(rolls, g.map.width(), g.map.height()),
        g.map.width() <= usize::MAX,
        g.map.height() <= usize::MAX,
        g.map.in_bounds(p),
        g.map.cell(p).tile == Tile::Boulder || g.map.cell(p).tile == Tile::Monster,
        g.map.cell(p).cool_down > 1,
    ensures
        at(g.outcome(rolls).cells, p).tile == g.map.cell(p).tile,
        at(g.outcome(rolls).cells, p).facing == g.map.cell(p).facing,
        at(g.outcome(rolls).cells, p).cool_down == g.map.cell(p).cool_down - 1,
{
    let w = g.map.width();
    let h = g.map.height();
    let s = g.start();
    let inp = g.turn_input(rolls);
    assert(is_grid(s.cells, w, h));
    assert(is_grid(s.touched, w, h));
    assert forall|i: int, j: int|
        0 <= i < w && 0 <= j < h && (i == 0 || j == 0 || i == w - 1 || j == h - 1) implies impassable(
        #[trigger] s.cells[i][j].tile,
    ) by {
        assert(impassable(g.map@[i][j].tile));
    }
    assert(bordered(s.cells, w, h));
    lemma_rows_keep_cooling(s, h, p, w, h, inp);
}

/// `a` is `b` or one of its eight neighbours.
pub open spec fn near(a: Pos, b: Pos) -> bool {
    a.x <= b.x + 1 && b.x <= a.x + 1 && a.y <= b.y + 1 && b.y <= a.y + 1
}

/// A tile whose occupant may act.
pub open spec fn actor(t: Tile) -> bool {
    t == Tile::Boulder || t == Tile::Monster || t == Tile::Player
}

/// A step of the pass changes nothing, and resolves nothing, away from the
/// visited cell and its neighbours.
#[verifier::rlimit(60)]
proof fn lemma_act_is_local(s: Sim, q: Pos, r: Pos, w: int, h: int, inp: TurnInput)
    requires
        sim_wf(s, w, h, inp),
        q.x < w,
        q.y < h,
        r.x < w,
        r.y < h,
        w <= usize::MAX,
        h <= usize::MAX,
        !near(r, q),
    ensures
        at(act(s, q, inp).cells, r) == at(s.cells, r),
        at(act(s, q, inp).touched, r) == at(s.touched, r),
{
    let c = at(s.cells, q);
    if !at(s.touched, q) && c.cool_down <= 0 && actor(c.tile) {
        assert(1 <= q.x < w - 1 && 1 <= q.y < h - 1);
        let below = q.step(Direction::Down);
        assert(r.x > q.x + 1 || q.x > r.x + 1 || r.y > q.y + 1 || q.y > r.y + 1);
        assert(r != q);
        assert(r != below);
        assert(r != q.step(Direction::Up));
        assert(r != q.step(Direction::Left));
        assert(r != q.step(Direction::Right));
        assert(r != below.step(Direction::Left));
        assert(r != below.step(Direction::Right));
    }
}

/// What holds of a pass around a ready boulder at `p` over the empty cell
/// `b`, whose other neighbours held no actor when the turn began: until `p`
/// is reached both cells are as they began; afterwards `p` is empty and `b`
/// holds the boulder; and an unresolved neighbour is as it began.
pub open spec fn fall_inv(s: Sim, s0: Seq<Seq<MapCell>>, p: Pos, b: Pos, w: int, h: int) -> bool {
    &&& forall|r: Pos|
        r.x < w && r.y < h && r != p && (near(r, p) || near(r, b)) && !at(s.touched, r) ==> #[trigger] at(s.cells, r)
            == at(s0, r)
    &&& {
        ||| (!at(s.touched, p) && at(s.cells, p) == at(s0, p) && at(s.cells, b) == at(s0, b))
        ||| (at(s.touched, p) && at(s.cells, p).tile == Tile::Empty && at(s.cells, b).tile == Tile::Boulder
            && at(s.cells, b).cool_down == 20)
    }
}

proof fn lemma_act_keeps_fall_inv(
    s: Sim,
    s0: Seq<Seq<MapCell>>,
    q: Pos,
    p: Pos,
    w: int,
    h: int,
    inp: TurnInput,
)
    requires
        sim_wf(s, w, h, inp),
        q.x < w,
        q.y < h,
        p.x < w,
        1 <= p.y < h,
        w <= usize::MAX,
        h <= usize::MAX,
        fall_inv(s, s0, p, p.step(Direction::Down), w, h),
        at(s0, p).tile == Tile::Boulder,
        at(s0, p).cool_down <= 0,
        at(s0, p.step(Direction::Down)).tile == Tile::Empty,
        forall|r: Pos|
            r.x < w && r.y < h && r != p && (near(r, p) || near(r, p.step(Direction::Down))) ==> !actor(
                #[trigger] at(s0, r).tile,
            ),
    ensures
        fall_inv(act(s, q, inp), s0, p, p.step(Direction::Down), w, h),
{
    let b = p.step(Direction::Down);
    let t = act(s, q, inp);
    lemma_acts_at_most_once(s, q, w, h, inp);
    if at(s.touched, q) {
    } else if q == p {
        assert(1 <= p.x < w - 1 && 1 <= p.y < h - 1);
        assert forall|r: Pos|
            r.x < w && r.y < h && r != p && (near(r, p) || near(r, b)) && !at(t.touched, r) implies #[trigger] at(
            t.cells,
            r,
        ) == at(s0, r) by {
            if at(t.cells, r) != at(s.cells, r) {
                lemma_changed_cells_resolved(s, q, r, w, h, inp);
            }
        }
    } else if near(q, p) || near(q, b) {
        assert(at(s.cells, q) == at(s0, q));
        assert(!actor(at(s0, q).tile));
    } else {
        lemma_act_is_local(s, q, p, w, h, inp);
        lemma_act_is_local(s, q, b, w, h, inp);
        assert forall|r: Pos|
            r.x < w && r.y < h && r != p && (near(r, p) || near(r, b)) && !at(t.touched, r) implies #[trigger] at(
            t.cells,
            r,
        ) == at(s0, r) by {
            if at(t.cells, r) != at(s.cells, r) {
                lemma_changed_cells_resolved(s, q, r, w, h, inp);
            }
        }
    }
}

proof fn lemma_row_keeps_fall_inv(
    s: Sim,
    y: int,
    x: int,
    s0: Seq<Seq<MapCell>>,
    p: Pos,
    w: int,
    h: int,
    inp: TurnInput,
)
    requires
        sim_wf(s, w, h, inp),
        0 <= y < h,
        0 <= x <= w,
        w <= usize::MAX,
        h <= usize::MAX,
        p.x < w,
        1 <= p.y < h,
        fall_inv(s, s0, p, p.step(Direction::Down), w, h),
        at(s0, p).tile == Tile::Boulder,
        at(s0, p).cool_down <= 0,
        at(s0, p.step(Direction::Down)).tile == Tile::Empty,
        forall|r: Pos|
            r.x < w && r.y < h && r != p && (near(r, p) || near(r, p.step(Direction::Down))) ==> !actor(
                #[trigger] at(s0, r).tile,
            ),
    ensures
        sim_wf(run_row(s, y, x, inp), w, h, inp),
        fall_inv(run_row(s, y, x, inp), s0, p, p.step(Direction::Down), w, h),
        at(s.touched, p) || (p.y == y && p.x < x) ==> at(run_row(s, y, x, inp).touched, p),
    decreases x,
{
    if x > 0 {
        lemma_row_keeps_fall_inv(s, y, x - 1, s0, p, w, h, inp);
        let prev = run_row(s, y, x - 1, inp);
        let q = Pos { x: (x - 1) as usize, y: y as usize };
        lemma_act_wf(prev, q, w, h, inp);
        lemma_act_keeps_fall_inv(prev, s0, q, p, w, h, inp);
        lemma_acts_at_most_once(prev, q, w, h, inp);
    }
}

proof fn lemma_rows_keep_fall_inv(
    s: Sim,
    y: int,
    s0: Seq<Seq<MapCell>>,
    p: Pos,
    w: int,
    h: int,
    inp: TurnInput,
)
    requires
        sim_wf(s, w, h, inp),
        0 <= y <= h,
        w <= usize::MAX,
        h <= usize::MAX,
        p.x < w,
        1 <= p.y < h,
        fall_inv(s, s0, p, p.step(Direction::Down), w, h),
        at(s0, p).tile == Tile::Boulder,
        at(s0, p).cool_down <= 0,
        at(s0, p.step(Direction::Down)).tile == Tile::Empty,
        forall|r: Pos|
            r.x < w && r.y < h && r != p && (near(r, p) || near(r, p.step(Direction::Down))) ==> !actor(
                #[trigger] at(s0, r).tile,
            ),
    ensures
        sim_wf(run_rows(s, y, w, inp), w, h, inp),
        fall_inv(run_rows(s, y, w, inp), s0, p, p.step(Direction::Down), w, h),
        at(s.touched, p) || p.y < y ==> at(run_rows(s, y, w, inp).touched, p),
    decreases y,
{
    if y > 0 {
        lemma_rows_keep_fall_inv(s, y - 1, s0, p, w, h, inp);
        lemma_row_keeps_fall_inv(run_rows(s, y - 1, w, inp), y - 1, w, s0, p, w, h, inp);
    }
}

/// Over a whole turn, a boulder that is ready to act, over an empty cell,
/// with no boulder, monster or player next to it or next to that cell,
/// falls: its cell ends empty and the cell below holds it with cooldown 20.
pub proof fn lemma_boulder_falls_in_turn(g: GameState, rolls: Seq<Seq<Roll>>, p: Pos)
    requires
        g.ready(),
        is_grid(rolls, g.map.width(), g.map.height()),
        g.map.width() <= usize::MAX,
        g.map.height() <= usize::MAX,
        g.map.in_bounds(p),
        1 <= p.y,
        g.map.cell(p).tile == Tile::Boulder,
        g.map.cell(p).cool_down <= 1,
        g.map.cell(p.step(Direction::Down)).tile == Tile::Empty,
        forall|r: Pos|
            g.map.in_bounds(r) && r != p && (near(r, p) || near(r, p.step(Direction::Down))) ==> !actor(
                #[trigger] g.map.cell(r).tile,
            ),
    ensures
        at(g.outcome(rolls).cells, p).tile == Tile::Empty,
        at(g.outcome(rolls).cells, p.step(Direction::Down)).tile == Tile::Boulder,
        at(g.outcome(rolls).cells, p.step(Direction::Down)).cool_down == 20,
{
    let w = g.map.width();
    let h = g.map.height();
    let s = g.start();
    let inp = g.turn_input(rolls);
    let b = p.step(Direction::Down);
    assert(is_grid(s.cells, w, h));
    assert(is_grid(s.touched, w, h));
    assert forall|i: int, j: int|
        0 <= i < w && 0 <= j < h && (i == 0 || j == 0 || i == w - 1 || j == h - 1) implies impassable(
        #[trigger] s.cells[i][j].tile,
    ) by {
        assert(impassable(g.map@[i][j].tile));
    }
    assert(bordered(s.cells, w, h));
    assert forall|r: Pos|
        r.x < w && r.y < h && r != p && (near(r, p) || near(r, b)) implies !actor(#[trigger] at(s.cells, r).tile) by {
        assert(g.map.in_bounds(r));
        assert(!actor(g.map.cell(r).tile));
    }
    assert(!at(s.touched, p));
    assert(fall_inv(s, s.cells, p, b, w, h));
    lemma_rows_keep_fall_inv(s, h, s.cells, p, w, h, inp);
}

/// What holds of a pass around a ready boulder at `p` resting on the only
/// player, at `b`, when no other actor was next to either and the player
/// has no command: until `p` is reached nothing about them changes; after,
/// the crush counter went down by one, or, at zero, the player was crushed.
pub open spec fn press_inv(
    s: Sim,
    s0: Seq<Seq<MapCell>>,
    p: Pos,
    b: Pos,
    crush0: int,
    alive0: bool,
    w: int,
    h: int,
) -> bool {
    &&& forall|r: Pos|
        r.x < w && r.y < h && r != p && r != b && (near(r, p) || near(r, b)) && !at(s.touched, r)
            ==> #[trigger] at(s.cells, r) == at(s0, r)
    &&& forall|r: Pos| r.x < w && r.y < h && r != b ==> #[trigger] at(s.cells, r).tile != Tile::Player
    &&& {
        ||| (!at(s.touched, p) && at(s.cells, p) == at(s0, p) && at(s.cells, b).tile == Tile::Player
            && s.crush == crush0 && s.alive == alive0)
        ||| (at(s.touched, p) && crush0 > 0 && s.crush == crush0 - 1 && s.alive == alive0
            && at(s.cells, p).tile == Tile::Boulder && at(s.cells, b).tile == Tile::Player)
        ||| (at(s.touched, p) && crush0 == 0 && !s.alive && at(s.cells, p).tile == Tile::Empty
            && at(s.cells, b).tile == Tile::Boulder && at(s.cells, b).cool_down == 20)
    }
}

#[verifier::rlimit(80)]
proof fn lemma_act_keeps_press_inv(
    s: Sim,
    s0: Seq<Seq<MapCell>>,
    q: Pos,
    p: Pos,
    crush0: int,
    alive0: bool,
    w: int,
    h: int,
    inp: TurnInput,
)
    requires
        sim_wf(s, w, h, inp),
        q.x < w,
        q.y < h,
        p.x < w,
        1 <= p.y < h,
        w <= usize::MAX,
        h <= usize::MAX,
        inp.command is None,
        press_inv(s, s0, p, p.step(Direction::Down), crush0, alive0, w, h),
        at(s0, p).tile == Tile::Boulder,
        at(s0, p).cool_down <= 0,
        forall|r: Pos|
            r.x < w && r.y < h && r != p && r != p.step(Direction::Down) && (near(r, p) || near(
                r,
                p.step(Direction::Down),
            )) ==> !actor(#[trigger] at(s0, r).tile),
    ensures
        press_inv(act(s, q, inp), s0, p, p.step(Direction::Down), crush0, alive0, w, h),
{
    let b = p.step(Direction::Down);
    let t = act(s, q, inp);
    let c = at(s.cells, q);
    lemma_acts_at_most_once(s, q, w, h, inp);
    if at(s.touched, q) || c.cool_down > 0 || !actor(c.tile) {
        assert forall|r: Pos| r.x < w && r.y < h implies #[trigger] at(t.cells, r) == at(s.cells, r) by {}
    } else {
        assert(1 <= q.x < w - 1 && 1 <= q.y < h - 1);
        if q == p {
            assert forall|r: Pos|
                r.x < w && r.y < h && r != p && r != b && (near(r, p) || near(r, b)) && !at(t.touched, r)
                    implies #[trigger] at(t.cells, r) == at(s0, r) by {
                if at(t.cells, r) != at(s.cells, r) {
                    lemma_changed_cells_resolved(s, q, r, w, h, inp);
                }
            }
        } else if q == b {
        } else if near(q, p) || near(q, b) {
            assert(at(s.cells, q) == at(s0, q));
        } else {
            lemma_act_is_local(s, q, p, w, h, inp);
            lemma_act_is_local(s, q, b, w, h, inp);
            assert(c.tile != Tile::Player);
            let below = q.step(Direction::Down);
            assert(below != b);
            assert(q.step(Direction::Left).step(Direction::Down) != b);
            assert(q.step(Direction::Right).step(Direction::Down) != b);
            assert(below.step(Direction::Left) != b);
            assert(below.step(Direction::Right) != b);
            assert(q.step(Direction::Up) != b && q.step(Direction::Left) != b && q.step(Direction::Right) != b);
            assert forall|r: Pos|
                r.x < w && r.y < h && r != p && r != b && (near(r, p) || near(r, b)) && !at(t.touched, r)
                    implies #[trigger] at(t.cells, r) == at(s0, r) by {
                if at(t.cells, r) != at(s.cells, r) {
                    lemma_changed_cells_resolved(s, q, r, w, h, inp);
                }
            }
        }
    }
}

proof fn lemma_row_keeps_press_inv(
    s: Sim,
    y: int,
    x: int,
    s0: Seq<Seq<MapCell>>,
    p: Pos,
    crush0: int,
    alive0: bool,
    w: int,
    h: int,
    inp: TurnInput,
)
    requires
        sim_wf(s, w, h, inp),
        0 <= y < h,
        0 <= x <= w,
        w <= usize::MAX,
        h <= usize::MAX,
        p.x < w,
        1 <= p.y < h,
        inp.command is None,
        press_inv(s, s0, p, p.step(Direction::Down), crush0, alive0, w, h),
        at(s0, p).tile == Tile::Boulder,
        at(s0, p).cool_down <= 0,
        forall|r: Pos|
            r.x < w && r.y < h && r != p && r != p.step(Direction::Down) && (near(r, p) || near(
                r,
                p.step(Direction::Down),
            )) ==> !actor(#[trigger] at(s0, r).tile),
    ensures
        sim_wf(run_row(s, y, x, inp), w, h, inp),
        press_inv(run_row(s, y, x, inp), s0, p, p.step(Direction::Down), crush0, alive0, w, h),
        at(s.touched, p) || (p.y == y && p.x < x) ==> at(run_row(s, y, x, inp).touched, p),
    decreases x,
{
    if x > 0 {
        lemma_row_keeps_press_inv(s, y, x - 1, s0, p, crush0, alive0, w, h, inp);
        let prev = run_row(s, y, x - 1, inp);
        let q = Pos { x: (x - 1) as usize, y: y as usize };
        lemma_act_wf(prev, q, w, h, inp);
        lemma_act_keeps_press_inv(prev, s0, q, p, crush0, alive0, w, h, inp);
        lemma_acts_at_most_once(prev, q, w, h, inp);
    }
}

proof fn lemma_rows_keep_press_inv(
    s: Sim,
    y: int,
    s0: Seq<Seq<MapCell>>,
    p: Pos,
    crush0: int,
    alive0: bool,
    w: int,
    h: int,
    inp: TurnInput,
)
    requires
        sim_wf(s, w, h, inp),
        0 <= y <= h,
        w <= usize::MAX,
        h <= usize::MAX,
        p.x < w,
        1 <= p.y < h,
        inp.command is None,
        press_inv(s, s0, p, p.step(Direction::Down), crush0, alive0, w, h),
        at(s0, p).tile == Tile::Boulder,
        at(s0, p).cool_down <= 0,
        forall|r: Pos|
            r.x < w && r.y < h && r != p && r != p.step(Direction::Down) && (near(r, p) || near(
                r,
                p.step(Direction::Down),
            )) ==> !actor(#[trigger] at(s0, r).tile),
    ensures
        sim_wf(run_rows(s, y, w, inp), w, h, inp),
        press_inv(run_rows(s, y, w, inp), s0, p, p.step(Direction::Down), crush0, alive0, w, h),
        at(s.touched, p) || p.y < y ==> at(run_rows(s, y, w, inp).touched, p),
    decreases y,
{
    if y > 0 {
        lemma_rows_keep_press_inv(s, y - 1, s0, p, crush0, alive0, w, h, inp);
        lemma_row_keeps_press_inv(run_rows(s, y - 1, w, inp), y - 1, w, s0, p, crush0, alive0, w, h, inp);
    }
}

/// Over a whole turn, a ready boulder resting on the only player, with no
/// other boulder, monster or player next to either and no command given,
/// wears the crush counter down by one while it is positive; at zero it
/// crushes the player and takes the player's cell with cooldown 20.
pub proof fn lemma_boulder_crushes_in_turn(g: GameState, rolls: Seq<Seq<Roll>>, p: Pos)
    requires
        g.ready(),
        is_grid(rolls, g.map.width(), g.map.height()),
        g.map.width() <= usize::MAX,
        g.map.height() <= usize::MAX,
        g.map.in_bounds(p),
        1 <= p.y,
        g.player_command is None,
        g.map.cell(p).tile == Tile::Boulder,
        g.map.cell(p).cool_down <= 1,
        g.map.cell(p.step(Direction::Down)).tile == Tile::Player,
        forall|r: Pos|
            g.map.in_bounds(r) && r != p.step(Direction::Down) ==> #[trigger] g.map.cell(r).tile != Tile::Player,
        forall|r: Pos|
            g.map.in_bounds(r) && r != p && r != p.step(Direction::Down) && (near(r, p) || near(
                r,
                p.step(Direction::Down),
            )) ==> !actor(#[trigger] g.map.cell(r).tile),
    ensures
        g.crush > 0 ==> {
            &&& g.outcome(rolls).crush == g.crush - 1
            &&& g.outcome(rolls).alive == g.player_alive
            &&& at(g.outcome(rolls).cells, p).tile == Tile::Boulder
            &&& at(g.outcome(rolls).cells, p.step(Direction::Down)).tile == Tile::Player
        },
        g.crush == 0 ==> {
            &&& !g.outcome(rolls).alive
            &&& at(g.outcome(rolls).cells, p).tile == Tile::Empty
            &&& at(g.outcome(rolls).cells, p.step(Direction::Down)).tile == Tile::Boulder
            &&& at(g.outcome(rolls).cells, p.step(Direction::Down)).cool_down == 20
        },
{
    let w = g.map.width();
    let h = g.map.height();
    let s = g.start();
    let inp = g.turn_input(rolls);
    let b = p.step(Direction::Down);
    assert(is_grid(s.cells, w, h));
    assert(is_grid(s.touched, w, h));
    assert forall|i: int, j: int|
        0 <= i < w && 0 <= j < h && (i == 0 || j == 0 || i == w - 1 || j == h - 1) implies impassable(
        #[trigger] s.cells[i][j].tile,
    ) by {
        assert(impassable(g.map@[i][j].tile));
    }
    assert(bordered(s.cells, w, h));
    assert forall|r: Pos|
        r.x < w && r.y < h && r != p && r != b && (near(r, p) || near(r, b)) implies !actor(
        #[trigger] at(s.cells, r).tile,
    ) by {
        assert(g.map.in_bounds(r));
        assert(!actor(g.map.cell(r).tile));
    }
    assert forall|r: Pos| r.x < w && r.y < h && r != b implies #[trigger] at(s.cells, r).tile != Tile::Player by {
        assert(g.map.in_bounds(r));
        assert(g.map.cell(r).tile != Tile::Player);
    }
    assert(!at(s.touched, p));
    assert(press_inv(s, s.cells, p, b, g.crush as int, g.player_alive, w, h));
    lemma_rows_keep_press_inv(s, h, s.cells, p, g.crush as int, g.player_alive, w, h, inp);
}

/// At most one cell holds the player, and the score has gone up by at most
/// one since `score0`, and only once the player's cell was resolved.
pub open spec fn score_inv(s: Sim, score0: int, w: int, h: int) -> bool {
    &&& forall|r1: Pos, r2: Pos|
        r1.x < w && r1.y < h && r2.x < w && r2.y < h && #[trigger] at(s.cells, r1).tile == Tile::Player
            && #[trigger] at(s.cells, r2).tile == Tile::Player ==> r1 == r2
    &&& {
        ||| s.score == score0
        ||| (s.score == score0 + 1 && forall|r: Pos|
            r.x < w && r.y < h && #[trigger] at(s.cells, r).tile == Tile::Player ==> at(s.touched, r))
    }
}

#[verifier::rlimit(80)]
proof fn lemma_act_keeps_score_inv(s: Sim, q: Pos, score0: int, w: int, h: int, inp: TurnInput)
    requires
        sim_wf(s, w, h, inp),
        q.x < w,
        q.y < h,
        w <= usize::MAX,
        h <= usize::MAX,
        score_inv(s, score0, w, h),
    ensures
        score_inv(act(s, q, inp), score0, w, h),
{
    let t = act(s, q, inp);
    let c = at(s.cells, q);
    lemma_acts_at_most_once(s, q, w, h, inp);
    if at(s.touched, q) || c.cool_down > 0 || !actor(c.tile) {
        assert forall|r: Pos| r.x < w && r.y < h implies #[trigger] at(t.cells, r) == at(s.cells, r) by {}
    } else {
        assert(1 <= q.x < w - 1 && 1 <= q.y < h - 1);
        if c.tile == Tile::Player {
            assert forall|r: Pos| r.x < w && r.y < h && #[trigger] at(s.cells, r).tile == Tile::Player implies r
                == q by {
                assert(at(s.cells, q).tile == Tile::Player);
            }
            assert forall|r: Pos| r.x < w && r.y < h && #[trigger] at(t.cells, r).tile == Tile::Player implies r
                == q || (r == q.step(inp.command->0) && at(t.touched, r)) by {
                if at(t.cells, r) != at(s.cells, r) {
                    lemma_changed_cells_resolved(s, q, r, w, h, inp);
                }
            }
        } else {
            assert forall|r: Pos| r.x < w && r.y < h && #[trigger] at(t.cells, r).tile == Tile::Player implies at(
                s.cells,
                r,
            ).tile == Tile::Player by {
                if at(t.cells, r) != at(s.cells, r) {
                    lemma_changed_cells_resolved(s, q, r, w, h, inp);
                }
            }
        }
    }
}

proof fn lemma_row_keeps_score_inv(s: Sim, y: int, x: int, score0: int, w: int, h: int, inp: TurnInput)
    requires
        sim_wf(s, w, h, inp),
        0 <= y < h,
        0 <= x <= w,
        w <= usize::MAX,
        h <= usize::MAX,
        score_inv(s, score0, w, h),
    ensures
        sim_wf(run_row(s, y, x, inp), w, h, inp),
        score_inv(run_row(s, y, x, inp), score0, w, h),
    decreases x,
{
    if x > 0 {
        lemma_row_keeps_score_inv(s, y, x - 1, score0, w, h, inp);
        let prev = run_row(s, y, x - 1, inp);
        let q = Pos { x: (x - 1) as usize, y: y as usize };
        lemma_act_wf(prev, q, w, h, inp);
        lemma_act_keeps_score_inv(prev, q, score0, w, h, inp);
    }
}

proof fn lemma_rows_keep_score_inv(s: Sim, y: int, score0: int, w: int, h: int, inp: TurnInput)
    requires
        sim_wf(s, w, h, inp),
        0 <= y <= h,
        w <= usize::MAX,
        h <= usize::MAX,
        score_inv(s, score0, w, h),
    ensures
        sim_wf(run_rows(s, y, w, inp), w, h, inp),
        score_inv(run_rows(s, y, w, inp), score0, w, h),
    decreases y,
{
    if y > 0 {
        lemma_rows_keep_score_inv(s, y - 1, score0, w, h, inp);
        lemma_row_keeps_score_inv(run_rows(s, y - 1, w, inp), y - 1, w, score0, w, h, inp);
    }
}

/// Over a whole turn on a grid with at most one player, the score goes up by
/// at most one: a diamond is never counted twice.
pub proof fn lemma_score_rises_at_most_one(g: GameState, rolls: Seq<Seq<Roll>>)
    requires
        g.ready(),
        is_grid(rolls, g.map.width(), g.map.height()),
        g.map.width() <= usize::MAX,
        g.map.height() <= usize::MAX,
        forall|r1: Pos, r2: Pos|
            g.map.in_bounds(r1) && g.map.in_bounds(r2) && #[trigger] g.map.cell(r1).tile == Tile::Player
                && #[trigger] g.map.cell(r2).tile == Tile::Player ==> r1 == r2,
    ensures
        g.score <= g.outcome(rolls).score <= g.score + 1,
{
    let w = g.map.width();
    let h = g.map.height();
    let s = g.start();
    let inp = g.turn_input(rolls);
    assert(is_grid(s.cells, w, h));
    assert(is_grid(s.touched, w, h));
    assert forall|i: int, j: int|
        0 <= i < w && 0 <= j < h && (i == 0 || j == 0 || i == w - 1 || j == h - 1) implies impassable(
        #[trigger] s.cells[i][j].tile,
    ) by {
        assert(impassable(g.map@[i][j].tile));
    }
    assert(bordered(s.cells, w, h));
    assert forall|r1: Pos, r2: Pos|
        r1.x < w && r1.y < h && r2.x < w && r2.y < h && #[trigger] at(s.cells, r1).tile == Tile::Player
            && #[trigger] at(s.cells, r2).tile == Tile::Player implies r1 == r2 by {
        assert(g.map.in_bounds(r1) && g.map.in_bounds(r2));
        assert(g.map.cell(r1).tile == Tile::Player && g.map.cell(r2).tile == Tile::Player);
    }
    assert(score_inv(s, g.score as int, w, h));
    lemma_rows_keep_score_inv(s, h, g.score as int, w, h, inp);
}

} // verus!
