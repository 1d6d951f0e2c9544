use vstd::prelude::*;
use crate::colors::Rgba;
use crate::models::Vertex;
use crate::vertices::{push_tile, tile, TILE_TRIM};

verus! {

/// A block of two by two cells that ends the game when the head runs into it.
/// `position` is the block's corner with the smallest coordinates.
pub struct Obstacle {
    pub position: (i32, i32),
    /// The side of the grid that the vertices are scaled by.
    pub grid_size: i32,
    pub color: Rgba,
}

/// Whether the block anchored at `anchor` covers `position`.
pub open spec fn block_covers(anchor: (i32, i32), position: (i32, i32)) -> bool {
    &&& anchor.0 <= position.0 < anchor.0 + 2
    &&& anchor.1 <= position.1 < anchor.1 + 2
}

/// Whether one of `obstacles` covers `p`.
pub open spec fn obstructed(obstacles: Seq<Obstacle>, p: (i32, i32)) -> bool {
    exists|j: int| 0 <= j < obstacles.len() && block_covers((#[trigger] obstacles[j]).position, p)
}

/// Computes `obstructed`.
pub fn any_occupies(obstacles: &[Obstacle], p: (i32, i32)) -> (r: bool)
    ensures
        r == obstructed(obstacles@, p),
{
    let mut i: usize = 0;
    while i < obstacles.len()
        invariant
            i <= obstacles.len(),
            forall|j: int| 0 <= j < i ==> !block_covers((#[trigger] obstacles@[j]).position, p),
        decreases obstacles.len() - i,
    {
        if obstacles[i].occupies(p) {
            assert(block_covers(obstacles@[i as int].position, p));
            return true;
        }
        i += 1;
    }
    false
}

/// The triangles of a block: its four tiles, column by column.
pub open spec fn block_tiles(anchor: (i32, i32), grid_size: int, color: Rgba) -> Seq<Vertex> {
    tile((anchor.0 as int, anchor.1 as int), grid_size, TILE_TRIM as int, color) + tile(
        (anchor.0 as int, anchor.1 + 1),
        grid_size,
        TILE_TRIM as int,
        color,
    ) + tile((anchor.0 + 1, anchor.1 as int), grid_size, TILE_TRIM as int, color) + tile(
        (anchor.0 + 1, anchor.1 + 1),
        grid_size,
        TILE_TRIM as int,
        color,
    )
}

impl Obstacle {
    pub fn new(color: Rgba, position: (i32, i32), grid_size: i32) -> (obstacle: Obstacle)
        ensures
            obstacle.position == position,
            obstacle.color == color,
            obstacle.grid_size == grid_size,
    {
        Obstacle { position, grid_size, color }
    }

    /// The triangles of the block's four tiles.
    pub fn as_vertices(&self) -> (vertices: Vec<Vertex>)
        ensures
            vertices@ == block_tiles(self.position, self.grid_size as int, self.color),
    {
        let x: i64 = self.position.0 as i64;
        let y: i64 = self.position.1 as i64;
        let mut all_vertices: Vec<Vertex> = Vec::new();
        push_tile(&mut all_vertices, (x, y), self.grid_size, TILE_TRIM, self.color);
        push_tile(&mut all_vertices, (x, y + 1), self.grid_size, TILE_TRIM, self.color);
        push_tile(&mut all_vertices, (x + 1, y), self.grid_size, TILE_TRIM, self.color);
        push_tile(&mut all_vertices, (x + 1, y + 1), self.grid_size, TILE_TRIM, self.color);
        all_vertices
    }

    /// Whether the block covers `position`.
    pub fn occupies(&self, position: (i32, i32)) -> (r: bool)
        ensures
            r == block_covers(self.position, position),
    {
        let x: i64 = self.position.0 as i64;
        let y: i64 = self.position.1 as i64;
        position.0 as i64 >= x && (position.0 as i64) < x + 2 && position.1 as i64 >= y && (
        position.1 as i64) < y + 2
    }
}

} // verus!
