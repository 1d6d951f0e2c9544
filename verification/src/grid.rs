use vstd::prelude::*;
use crate::models::Direction;

verus! {

/// Whether `p` lies on the square grid of side `grid_size`.
pub open spec fn in_grid(p: (i32, i32), grid_size: int) -> bool {
    0 <= p.0 < grid_size && 0 <= p.1 < grid_size
}

/// Whether every segment of `body` lies on the grid of side `grid_size`.
pub open spec fn on_grid(body: Seq<(i32, i32)>, grid_size: int) -> bool {
    forall|i: int| 0 <= i < body.len() ==> in_grid(#[trigger] body[i], grid_size)
}

/// The change in `(x, y)` that one step in `direction` makes.
pub open spec fn delta(direction: Direction) -> (int, int) {
    match direction {
        Direction::Up => (0, 1),
        Direction::Down => (0, -1),
        Direction::Left => (-1, 0),
        Direction::Right => (1, 0),
    }
}

/// One coordinate brought onto the grid: the remainder of `v` modulo
/// `grid_size`, never negative.
pub open spec fn wrap_coord(v: int, grid_size: int) -> int {
    v % grid_size
}

/// The cell reached from `p` by one step in `direction` on the torus of side
/// `grid_size`.
pub open spec fn wrapped_step(p: (i32, i32), direction: Direction, grid_size: int) -> (i32, i32) {
    (
        wrap_coord(p.0 + delta(direction).0, grid_size) as i32,
        wrap_coord(p.1 + delta(direction).1, grid_size) as i32,
    )
}

/// The Manhattan distance `|dx| + |dy|` between two cells.
pub open spec fn manhattan(a: (i32, i32), b: (i32, i32)) -> int {
    (if a.0 >= b.0 { a.0 - b.0 } else { b.0 - a.0 })
        + (if a.1 >= b.1 { a.1 - b.1 } else { b.1 - a.1 })
}

/// Computes `wrap_coord`.
pub fn wrap(v: i64, grid_size: i32) -> (r: i32)
    requires
        grid_size >= 1,
        v > i64::MIN,
    ensures
        r == wrap_coord(v as int, grid_size as int),
        0 <= r < grid_size,
{
    let g: i64 = grid_size as i64;
    if v >= 0 {
        (v % g) as i32
    } else {
        let a: i64 = -v;
        let m: i64 = a % g;
        let r: i64 = if m == 0 { 0 } else { g - m };
        proof {
            let q: int = (a as int) / (g as int);
            vstd::arithmetic::div_mod::lemma_fundamental_div_mod(a as int, g as int);
            if m == 0 {
                assert(v as int == (-q) * g + 0) by (nonlinear_arith)
                    requires
                        a as int == g * q + 0,
                        v as int == -(a as int),
                ;
                vstd::arithmetic::div_mod::lemma_fundamental_div_mod_converse(
                    v as int,
                    g as int,
                    -q,
                    0,
                );
            } else {
                assert(v as int == (-q - 1) * g + (g - m)) by (nonlinear_arith)
                    requires
                        a as int == g * q + m,
                        v as int == -(a as int),
                ;
                vstd::arithmetic::div_mod::lemma_fundamental_div_mod_converse(
                    v as int,
                    g as int,
                    -q - 1,
                    g - m,
                );
            }
        }
        r as i32
    }
}

/// Computes `wrapped_step`.
pub fn step_wrapped(p: (i32, i32), direction: Direction, grid_size: i32) -> (r: (i32, i32))
    requires
        grid_size >= 1,
    ensures
        r == wrapped_step(p, direction, grid_size as int),
        in_grid(r, grid_size as int),
{
    let (dx, dy): (i64, i64) = match direction {
        Direction::Up => (0, 1),
        Direction::Down => (0, -1),
        Direction::Left => (-1, 0),
        Direction::Right => (1, 0),
    };
    (wrap(p.0 as i64 + dx, grid_size), wrap(p.1 as i64 + dy, grid_size))
}

/// Computes `manhattan`.
pub fn manhattan_distance(a: (i32, i32), b: (i32, i32)) -> (d: i64)
    ensures
        d == manhattan(a, b),
{
    let dx: i64 = if a.0 >= b.0 { a.0 as i64 - b.0 as i64 } else { b.0 as i64 - a.0 as i64 };
    let dy: i64 = if a.1 >= b.1 { a.1 as i64 - b.1 as i64 } else { b.1 as i64 - a.1 as i64 };
    dx + dy
}

/// Whether two cells are the same cell.
pub fn same_cell(a: (i32, i32), b: (i32, i32)) -> (r: bool)
    ensures
        r == (a == b),
{
    a.0 == b.0 && a.1 == b.1
}

/// The body of a snake after its head moved to `head`: every segment takes the
/// place of the one before it, and the last place is given up.
pub open spec fn shifted(body: Seq<(i32, i32)>, head: (i32, i32)) -> Seq<(i32, i32)> {
    seq![head] + body.drop_last()
}

/// The cell on the line through the last two segments, one step past the
/// last, away from the body.
pub open spec fn extrapolated(body: Seq<(i32, i32)>) -> (int, int) {
    let last = body[body.len() - 1];
    let second_last = body[body.len() - 2];
    (2 * last.0 - second_last.0, 2 * last.1 - second_last.1)
}

/// Where a segment appended behind the tail goes: the extrapolated cell,
/// brought onto the torus of side `grid_size`.
pub open spec fn grown_tail(body: Seq<(i32, i32)>, grid_size: int) -> (i32, i32) {
    (
        wrap_coord(extrapolated(body).0, grid_size) as i32,
        wrap_coord(extrapolated(body).1, grid_size) as i32,
    )
}

/// A coordinate that was brought onto the grid, moved by `d` and brought onto
/// the grid again is where bringing the moved coordinate onto the grid leads.
pub proof fn lemma_wrap_again(v: int, d: int, grid_size: int)
    requires
        grid_size >= 1,
    ensures
        wrap_coord(wrap_coord(v, grid_size) + d, grid_size) == wrap_coord(v + d, grid_size),
        0 <= wrap_coord(v, grid_size) < grid_size,
{
    vstd::arithmetic::div_mod::lemma_fundamental_div_mod(v, grid_size);
    let q = v / grid_size;
    assert(v % grid_size + d == grid_size * (-q) + (v + d)) by (nonlinear_arith)
        requires
            v == grid_size * q + v % grid_size,
    ;
    vstd::arithmetic::div_mod::lemma_mod_multiples_vanish(-q, v + d, grid_size);
    vstd::arithmetic::div_mod::lemma_mod_bound(v, grid_size);
}

/// Whether the head of `body` shares its cell with another segment.
pub open spec fn head_hits_body(body: Seq<(i32, i32)>) -> bool {
    exists|i: int| 1 <= i < body.len() && #[trigger] body[i] == body[0]
}

} // verus!
