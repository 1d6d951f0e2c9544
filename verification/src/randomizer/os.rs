use rand::Rng;
use vstd::prelude::*;
use crate::colors::{palette_color, Rgba, PALETTE_SIZE};
use crate::randomizer::Randomizer;

verus! {

/// `rand::rngs::ThreadRng`, held as it is; nothing in it is read here.
#[verifier::external_type_specification]
#[verifier::external_body]
pub struct ExThreadRng(rand::rngs::ThreadRng);

/// Draws from the random number generator of the current thread.
pub struct OsRandomizer {
    rng: rand::rngs::ThreadRng,
}

/// `rand::rng`: a handle to the generator of the current thread. Nothing is
/// claimed of it. The call fails only where the operating system has no
/// randomness to seed the generator with.
#[verifier::external_body]
fn thread_rng() -> rand::rngs::ThreadRng {
    rand::rng()
}

/// `Rng::random_range` on the half-open range from 0 to `bound`: some number
/// of that range. The call panics on an empty range, which `requires` leaves
/// out.
#[verifier::external_body]
fn random_below(rng: &mut rand::rngs::ThreadRng, bound: i32) -> (n: i32)
    requires
        bound >= 1,
    ensures
        0 <= n < bound,
{
    rng.random_range(0..bound)
}

impl OsRandomizer {
    pub fn new() -> Self {
        Self { rng: thread_rng() }
    }
}

impl Randomizer for OsRandomizer {
    /// One of the palette's colours.
    fn get_random_color(&mut self) -> (color: Rgba)
        ensures
            exists|index: int|
                0 <= index < PALETTE_SIZE && color == crate::colors::spec_palette_color(index),
    {
        let index = random_below(&mut self.rng, PALETTE_SIZE as i32);
        palette_color(index as usize)
    }

    /// A cell of the grid.
    fn get_random_position_on_grid(&mut self, grid_size: i32) -> (position: (i32, i32))
        ensures
            crate::grid::in_grid(position, grid_size as int),
    {
        let x = random_below(&mut self.rng, grid_size);
        let y = random_below(&mut self.rng, grid_size);
        (x, y)
    }
}

} // verus!
