use vstd::prelude::*;
use crate::colors::Rgba;
use crate::models::Vertex;

verus! {

/// How much shorter than a cell a snake segment is drawn, in thousandths of
/// the surface's half-width per grid cell.
pub const SNAKE_TRIM: i64 = 14;

/// How much narrower than a cell every tile is drawn, and how much shorter a
/// food or obstacle tile is.
pub const TILE_TRIM: i64 = 10;

/// The drawing surface spans `-1..1` in both axes. Vertex coordinates are
/// whole numbers of `1 / vertex_scale(grid_size)`, so that a cell is 2000 units
/// wide and the gap kept between tiles, a hundredth of the surface's
/// half-width, is `TILE_TRIM * grid_size` units.
pub open spec fn vertex_scale(grid_size: int) -> int {
    1000 * grid_size
}

/// The left (or lower) edge of the tile in column (or row) `c`.
pub open spec fn tile_low(c: int, grid_size: int) -> int {
    2000 * c - 1000 * grid_size + TILE_TRIM * grid_size
}

/// The right edge of the tile in column `c`; also the upper edge of a tile
/// whose `trim` is `TILE_TRIM`.
pub open spec fn tile_high(c: int, grid_size: int, trim: int) -> int {
    tile_low(c, grid_size) + 2000 - trim * grid_size
}

pub open spec fn vertex_at(x: int, y: int, color: Rgba) -> Vertex {
    Vertex { x: x as i64, y: y as i64, color }
}

/// The two triangles that cover the tile of `cell`: lower left, lower right,
/// upper left; upper left, lower right, upper right.
pub open spec fn tile(cell: (int, int), grid_size: int, trim: int, color: Rgba) -> Seq<Vertex> {
    let x1 = tile_low(cell.0, grid_size);
    let y1 = tile_low(cell.1, grid_size);
    let x2 = tile_high(cell.0, grid_size, TILE_TRIM as int);
    let y2 = tile_high(cell.1, grid_size, trim);
    seq![
        vertex_at(x1, y1, color),
        vertex_at(x2, y1, color),
        vertex_at(x1, y2, color),
        vertex_at(x1, y2, color),
        vertex_at(x2, y1, color),
        vertex_at(x2, y2, color),
    ]
}

/// The tiles of `cells`, one after another.
pub open spec fn tiles(cells: Seq<(i32, i32)>, grid_size: int, trim: int, color: Rgba) -> Seq<Vertex>
    decreases cells.len(),
{
    if cells.len() == 0 {
        Seq::empty()
    } else {
        tiles(cells.drop_last(), grid_size, trim, color) + tile(
            (cells.last().0 as int, cells.last().1 as int),
            grid_size,
            trim,
            color,
        )
    }
}

/// Appends the tile of `cell` to `vertices`.
pub fn push_tile(vertices: &mut Vec<Vertex>, cell: (i64, i64), grid_size: i32, trim: i64, color: Rgba)
    requires
        i32::MIN <= cell.0 <= i32::MAX + 1,
        i32::MIN <= cell.1 <= i32::MAX + 1,
        0 <= trim <= 1000,
    ensures
        final(vertices)@ == old(vertices)@ + tile(
            (cell.0 as int, cell.1 as int),
            grid_size as int,
            trim as int,
            color,
        ),
{
    let g: i64 = grid_size as i64;
    let x1: i64 = 2000 * cell.0 - 1000 * g + TILE_TRIM * g;
    let y1: i64 = 2000 * cell.1 - 1000 * g + TILE_TRIM * g;
    let x2: i64 = x1 + 2000 - TILE_TRIM * g;
    assert(-0x400_0000_0000 <= trim * g <= 0x400_0000_0000) by (nonlinear_arith)
        requires
            0 <= trim <= 1000,
            -0x8000_0000 <= g < 0x8000_0000,
    ;
    let y2: i64 = y1 + 2000 - trim * g;
    let ghost before = vertices@;
    vertices.push(Vertex { x: x1, y: y1, color });
    vertices.push(Vertex { x: x2, y: y1, color });
    vertices.push(Vertex { x: x1, y: y2, color });
    vertices.push(Vertex { x: x1, y: y2, color });
    vertices.push(Vertex { x: x2, y: y1, color });
    vertices.push(Vertex { x: x2, y: y2, color });
    assert(vertices@ =~= before + tile(
        (cell.0 as int, cell.1 as int),
        grid_size as int,
        trim as int,
        color,
    ));
}

} // verus!
