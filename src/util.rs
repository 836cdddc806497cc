use crate::pos::Direction;
use vstd::prelude::*;

verus! {

/// Relies on rand::random: a value drawn from the thread-local generator.
/// Nothing is known of the value drawn.
pub assume_specification<T>[ rand::random::<T> ]() -> (r: T)
    where
        rand::distributions::Standard: rand::distributions::Distribution<T>,
;

/// `x` when `first` holds, else `y`.
pub fn pick<T>(first: bool, x: T, y: T) -> (r: T)
    ensures
        r == if first { x } else { y },
{
    if first {
        x
    } else {
        y
    }
}

/// The direction a drawn byte stands for: its remainder by four picks Up,
/// Down, Right or Left, so a uniform byte gives a uniform direction.
pub fn direction_of(n: u8) -> (d: Direction)
    ensures
        d == match n % 4 {
            0 => Direction::Up,
            1 => Direction::Down,
            2 => Direction::Right,
            _ => Direction::Left,
        },
{
    match n % 4 {
        0 => Direction::Up,
        1 => Direction::Down,
        2 => Direction::Right,
        _ => Direction::Left,
    }
}

/// One of the two arguments, chosen by a drawn `bool`.
pub fn select_random<T>(x: T, y: T) -> (r: T)
    ensures
        r == x || r == y,
{
    pick(rand::random::<bool>(), x, y)
}

/// One of the four directions, chosen by a drawn byte.
pub fn select_random_direction() -> Direction {
    direction_of(rand::random::<u8>())
}

} // verus!
