//! Where food and obstacles may be put down.

use vstd::prelude::*;
use crate::grid::{in_grid, same_cell};
use crate::objects::obstacle::{any_occupies, obstructed};
use crate::objects::{Food, Obstacle, Snake};
use crate::randomizer::Randomizer;

verus! {

/// How often a cell is drawn at random before the grid is searched in order.
pub const RANDOM_DRAWS: usize = 64;

/// The cells that a list of foods lies on.
pub open spec fn positions_of(foods: Seq<Food>) -> Seq<(i32, i32)> {
    Seq::new(foods.len(), |i: int| foods[i].position)
}

/// Whether a segment of the snake, an obstacle or a food lies on `p`.
pub open spec fn occupied(
    snake: Seq<(i32, i32)>,
    obstacles: Seq<Obstacle>,
    food_positions: Seq<(i32, i32)>,
    p: (i32, i32),
) -> bool {
    snake.contains(p) || obstructed(obstacles, p) || food_positions.contains(p)
}

/// Whether something can be put down at `p`: the cell lies on the grid and is
/// not occupied, and for a block neither are the three cells that the block
/// covers besides.
pub open spec fn placeable(
    snake: Seq<(i32, i32)>,
    obstacles: Seq<Obstacle>,
    food_positions: Seq<(i32, i32)>,
    grid_size: int,
    p: (i32, i32),
    block: bool,
) -> bool {
    &&& in_grid(p, grid_size)
    &&& !occupied(snake, obstacles, food_positions, p)
    &&& block ==> {
        &&& !occupied(snake, obstacles, food_positions, ((p.0 + 1) as i32, p.1))
        &&& !occupied(snake, obstacles, food_positions, (p.0, (p.1 + 1) as i32))
        &&& !occupied(snake, obstacles, food_positions, ((p.0 + 1) as i32, (p.1 + 1) as i32))
    }
}

/// Whether nothing can be put down anywhere.
pub open spec fn nothing_placeable(
    snake: Seq<(i32, i32)>,
    obstacles: Seq<Obstacle>,
    food_positions: Seq<(i32, i32)>,
    grid_size: int,
    block: bool,
) -> bool {
    forall|q: (i32, i32)| !#[trigger] placeable(snake, obstacles, food_positions, grid_size, q, block)
}

/// Whether `p` is among `positions`.
pub fn contains_position(positions: &[(i32, i32)], p: (i32, i32)) -> (r: bool)
    ensures
        r == positions@.contains(p),
{
    let mut i: usize = 0;
    while i < positions.len()
        invariant
            i <= positions.len(),
            forall|j: int| 0 <= j < i ==> positions@[j] != p,
        decreases positions.len() - i,
    {
        if same_cell(positions[i], p) {
            return true;
        }
        i += 1;
    }
    false
}

/// Computes `occupied`.
pub fn is_occupied(
    snake: &Snake,
    obstacles: &[Obstacle],
    food_positions: &[(i32, i32)],
    p: (i32, i32),
) -> (r: bool)
    ensures
        r == occupied(snake@, obstacles@, food_positions@, p),
{
    snake.occupies(p) || any_occupies(obstacles, p) || contains_position(food_positions, p)
}

/// Computes `placeable`.
pub fn is_placeable(
    snake: &Snake,
    obstacles: &[Obstacle],
    food_positions: &[(i32, i32)],
    grid_size: i32,
    p: (i32, i32),
    block: bool,
) -> (r: bool)
    ensures
        r == placeable(snake@, obstacles@, food_positions@, grid_size as int, p, block),
{
    if p.0 < 0 || p.1 < 0 || p.0 >= grid_size || p.1 >= grid_size {
        return false;
    }
    if is_occupied(snake, obstacles, food_positions, p) {
        return false;
    }
    if block {
        if is_occupied(snake, obstacles, food_positions, (p.0 + 1, p.1)) || is_occupied(
            snake,
            obstacles,
            food_positions,
            (p.0, p.1 + 1),
        ) || is_occupied(snake, obstacles, food_positions, (p.0 + 1, p.1 + 1)) {
            return false;
        }
    }
    true
}

/// The first cell, row by row from the origin, at which something can be put
/// down.
pub fn first_placeable(
    snake: &Snake,
    obstacles: &[Obstacle],
    food_positions: &[(i32, i32)],
    grid_size: i32,
    block: bool,
) -> (r: Option<(i32, i32)>)
    ensures
        r matches Some(p) ==> placeable(
            snake@,
            obstacles@,
            food_positions@,
            grid_size as int,
            p,
            block,
        ),
        r is None ==> nothing_placeable(
            snake@,
            obstacles@,
            food_positions@,
            grid_size as int,
            block,
        ),
{
    let mut y: i32 = 0;
    while y < grid_size
        invariant
            0 <= y,
            y <= grid_size || grid_size < 0,
            forall|q: (i32, i32)|
                q.1 < y ==> !#[trigger] placeable(
                    snake@,
                    obstacles@,
                    food_positions@,
                    grid_size as int,
                    q,
                    block,
                ),
        decreases grid_size - y,
    {
        let mut x: i32 = 0;
        while x < grid_size
            invariant
                0 <= x <= grid_size,
                0 <= y < grid_size,
                forall|q: (i32, i32)|
                    q.1 < y || (q.1 == y && q.0 < x) ==> !#[trigger] placeable(
                        snake@,
                        obstacles@,
                        food_positions@,
                        grid_size as int,
                        q,
                        block,
                    ),
            decreases grid_size - x,
        {
            if is_placeable(snake, obstacles, food_positions, grid_size, (x, y), block) {
                return Some((x, y));
            }
            x += 1;
        }
        y += 1;
    }
    None
}

/// A cell at which something can be put down. Cells are drawn from
/// `randomizer` until one will do; after `RANDOM_DRAWS` draws in vain the grid
/// is searched in order. `None` only where nothing can be put down anywhere.
pub fn get_free_position<R: Randomizer>(
    randomizer: &mut R,
    snake: &Snake,
    obstacles: &[Obstacle],
    food_positions: &[(i32, i32)],
    grid_size: i32,
    block: bool,
) -> (r: Option<(i32, i32)>)
    requires
        grid_size >= 1,
    ensures
        r matches Some(p) ==> placeable(
            snake@,
            obstacles@,
            food_positions@,
            grid_size as int,
            p,
            block,
        ),
        r is None ==> nothing_placeable(
            snake@,
            obstacles@,
            food_positions@,
            grid_size as int,
            block,
        ),
{
    let mut draws: usize = 0;
    while draws < RANDOM_DRAWS
        invariant
            grid_size >= 1,
        decreases RANDOM_DRAWS - draws,
    {
        let position = randomizer.get_random_position_on_grid(grid_size);
        if is_placeable(snake, obstacles, food_positions, grid_size, position, block) {
            return Some(position);
        }
        draws += 1;
    }
    first_placeable(snake, obstacles, food_positions, grid_size, block)
}

} // verus!
