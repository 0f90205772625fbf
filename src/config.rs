use vstd::prelude::*;

verus! {

/// Width of the simulated domain; x ranges over `[0, WIDTH]`.
pub const WIDTH: u32 = 600;

/// Height of the simulated domain; y ranges over `[-HEIGHT / 2, HEIGHT / 2]`.
pub const HEIGHT: u32 = WIDTH * 9 / 16;

/// Largest number of positions a trail keeps.
pub const MAX_PATH_LENGTH: usize = 10000;

/// Smallest population size drawn on a reset.
pub const MIN_WALKERS: usize = 3;

/// Bound on the population size drawn on a reset.
pub const MAX_WALKERS: usize = 50;

/// The height of the domain, in pixels.
pub fn height() -> (r: u32)
    ensures
        r == HEIGHT,
        r == 337,
{
    HEIGHT
}

} // verus!
