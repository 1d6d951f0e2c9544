use vstd::prelude::*;
use crate::colors::Rgba;

pub mod os;

pub use os::OsRandomizer;

verus! {

/// A source of random colours and cells. The game checks every cell it is
/// given, so nothing is asked of what an implementation returns.
pub trait Randomizer {
    fn get_random_color(&mut self) -> Rgba;

    /// A cell meant to lie on the grid of side `grid_size`, each equally
    /// likely.
    fn get_random_position_on_grid(&mut self, grid_size: i32) -> (i32, i32)
        requires
            grid_size >= 1,
    ;
}

} // verus!
