use vstd::prelude::*;

verus! {

/// A grid coordinate. `up` increases `y`, `down` decreases it.
#[derive(Copy, Clone, Debug, PartialEq, Eq, Hash, Structural)]
pub struct Pos {
    pub x: usize,
    pub y: usize,
}

/// One of the four cardinal directions.
#[derive(Copy, Clone, Debug, PartialEq, Eq, Hash, Structural)]
pub enum Direction {
    Up,
    Down,
    Left,
    Right,
}

impl Pos {
    /// Whether the neighbour in direction `d` is representable.
    pub open spec fn can_step(self, d: Direction) -> bool {
        match d {
            Direction::Up => self.y < usize::MAX,
            Direction::Down => self.y > 0,
            Direction::Left => self.x > 0,
            Direction::Right => self.x < usize::MAX,
        }
    }

    /// The neighbour in direction `d`.
    pub open spec fn step(self, d: Direction) -> Pos {
        match d {
            Direction::Up => Pos { x: self.x, y: (self.y + 1) as usize },
            Direction::Down => Pos { x: self.x, y: (self.y - 1) as usize },
            Direction::Left => Pos { x: (self.x - 1) as usize, y: self.y },
            Direction::Right => Pos { x: (self.x + 1) as usize, y: self.y },
        }
    }

    pub fn zero() -> (r: Pos)
        ensures
            r == (Pos { x: 0, y: 0 }),
    {
        Pos { x: 0, y: 0 }
    }

    pub fn with_x(&self, x: usize) -> (r: Pos)
        ensures
            r == (Pos { x, y: self.y }),
    {
        Pos { x, y: self.y }
    }

    pub fn with_y(&self, y: usize) -> (r: Pos)
        ensures
            r == (Pos { x: self.x, y }),
    {
        Pos { x: self.x, y }
    }

    pub fn up(&self) -> (r: Pos)
        requires
            self.y < usize::MAX,
        ensures
            r == self.step(Direction::Up),
    {
        self.with_y(self.y + 1)
    }

    pub fn down(&self) -> (r: Pos)
        requires
            self.y > 0,
        ensures
            r == self.step(Direction::Down),
    {
        self.with_y(self.y - 1)
    }

    pub fn left(&self) -> (r: Pos)
        requires
            self.x > 0,
        ensures
            r == self.step(Direction::Left),
    {
        self.with_x(self.x - 1)
    }

    pub fn right(&self) -> (r: Pos)
        requires
            self.x < usize::MAX,
        ensures
            r == self.step(Direction::Right),
    {
        self.with_x(self.x + 1)
    }

    /// The adjacent position in direction `dir`.
    pub fn to(&self, dir: Direction) -> (r: Pos)
        requires
            self.can_step(dir),
        ensures
            r == self.step(dir),
    {
        match dir {
            Direction::Up => self.up(),
            Direction::Down => self.down(),
            Direction::Left => self.left(),
            Direction::Right => self.right(),
        }
    }
}

} // verus!
