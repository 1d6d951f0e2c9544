use vstd::prelude::*;
use crate::colors::Rgba;
use crate::models::Vertex;
use crate::vertices::{push_tile, tile, TILE_TRIM};

verus! {

/// A piece of food: the cell it lies on, its colour, and the side of the grid
/// it is drawn on.
pub struct Food {
    pub position: (i32, i32),
    /// The side of the grid that the vertices are scaled by.
    pub grid_size: i32,
    pub color: Rgba,
}

impl Food {
    pub fn new(color: Rgba, position: (i32, i32), grid_size: i32) -> (food: Food)
        ensures
            food.position == position,
            food.color == color,
            food.grid_size == grid_size,
    {
        Food { position, grid_size, color }
    }

    /// The two triangles of the food's tile.
    pub fn as_vertices(&self) -> (vertices: Vec<Vertex>)
        ensures
            vertices@ == tile(
                (self.position.0 as int, self.position.1 as int),
                self.grid_size as int,
                TILE_TRIM as int,
                self.color,
            ),
    {
        let mut vertices: Vec<Vertex> = Vec::new();
        push_tile(
            &mut vertices,
            (self.position.0 as i64, self.position.1 as i64),
            self.grid_size,
            TILE_TRIM,
            self.color,
        );
        vertices
    }
}

} // verus!
