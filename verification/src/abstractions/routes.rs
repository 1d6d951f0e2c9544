//! What the navigation engine is asked for, stated without an algorithm: the
//! first move of the best route from one cell to another.

use vstd::prelude::*;
use crate::grid::delta;
use crate::models::Direction;
use crate::objects::obstacle::obstructed;
use crate::objects::Obstacle;

verus! {

/// The board as the navigation engine sees it.
pub struct Board {
    pub snake: Seq<(i32, i32)>,
    pub obstacles: Seq<Obstacle>,
    pub grid_size: int,
}

/// A cell named by mathematical integers, so that a step off any `i32` cell has
/// a name too.
pub open spec fn cell_of(p: (i32, i32)) -> (int, int) {
    (p.0 as int, p.1 as int)
}

/// Whether both coordinates of `c` are `i32` values.
pub open spec fn fits(c: (int, int)) -> bool {
    i32::MIN <= c.0 <= i32::MAX && i32::MIN <= c.1 <= i32::MAX
}

/// The place of a direction in the order in which neighbours are tried:
/// right, left, up, down.
pub open spec fn rank(d: Direction) -> int {
    match d {
        Direction::Right => 0,
        Direction::Left => 1,
        Direction::Up => 2,
        Direction::Down => 3,
    }
}

/// The direction at place `k` of that order.
pub open spec fn direction_at(k: int) -> Direction {
    if k == 0 {
        Direction::Right
    } else if k == 1 {
        Direction::Left
    } else if k == 2 {
        Direction::Up
    } else {
        Direction::Down
    }
}

/// The cell one step from `c` in direction `d`, without wrapping.
pub open spec fn neighbor(c: (int, int), d: Direction) -> (int, int) {
    (c.0 + delta(d).0, c.1 + delta(d).1)
}

impl Board {
    /// Whether the snake may enter `c`: the cell is on the grid, no segment of
    /// the snake lies on it and no obstacle covers it.
    pub open spec fn passable(self, c: (int, int)) -> bool {
        &&& 0 <= c.0 < self.grid_size
        &&& 0 <= c.1 < self.grid_size
        &&& fits(c)
        &&& !self.snake.contains((c.0 as i32, c.1 as i32))
        &&& !obstructed(self.obstacles, (c.0 as i32, c.1 as i32))
    }
}

/// Where the moves of `route` lead from `start`.
pub open spec fn end_of(start: (int, int), route: Seq<Direction>) -> (int, int)
    decreases route.len(),
{
    if route.len() == 0 {
        start
    } else {
        neighbor(end_of(start, route.drop_last()), route.last())
    }
}

/// Whether every cell that `route` enters from `start` is passable.
pub open spec fn valid_route(board: Board, start: (int, int), route: Seq<Direction>) -> bool
    decreases route.len(),
{
    route.len() == 0 || (valid_route(board, start, route.drop_last()) && board.passable(
        end_of(start, route),
    ))
}

/// The rank of the first move, or 0 for the empty route.
pub open spec fn first_rank(route: Seq<Direction>) -> int {
    if route.len() == 0 {
        0
    } else {
        rank(route[0])
    }
}

/// `a` is at least as good as `b`: shorter, or as long and starting with a
/// move that is tried no later.
pub open spec fn route_le(a: Seq<Direction>, b: Seq<Direction>) -> bool {
    a.len() < b.len() || (a.len() == b.len() && first_rank(a) <= first_rank(b))
}

/// `route` makes at least one move and leads from `start` to `target` over
/// passable cells.
pub open spec fn reaches(
    board: Board,
    start: (int, int),
    target: (int, int),
    route: Seq<Direction>,
) -> bool {
    route.len() >= 1 && valid_route(board, start, route) && end_of(start, route) == target
}

/// `route` reaches `target` and no route that does is better.
pub open spec fn is_best_route(
    board: Board,
    start: (int, int),
    target: (int, int),
    route: Seq<Direction>,
) -> bool {
    &&& reaches(board, start, target, route)
    &&& forall|other: Seq<Direction>| #[trigger]
        reaches(board, start, target, other) ==> route_le(route, other)
}

/// The first move of a best route from `start` to `target`: a shortest one,
/// and among the shortest one whose first move comes first in the order right,
/// left, up, down. `None` where `target` is `start` or cannot be reached.
pub open spec fn first_step(board: Board, start: (int, int), target: (int, int)) -> Option<
    Direction,
> {
    if start == target {
        None
    } else if exists|route: Seq<Direction>| is_best_route(board, start, target, route) {
        Some((choose|route: Seq<Direction>| is_best_route(board, start, target, route))[0])
    } else {
        None
    }
}

/// All best routes start with the same move.
pub proof fn lemma_best_routes_agree(
    board: Board,
    start: (int, int),
    target: (int, int),
    a: Seq<Direction>,
    b: Seq<Direction>,
)
    requires
        is_best_route(board, start, target, a),
        is_best_route(board, start, target, b),
    ensures
        a.len() == b.len(),
        a[0] == b[0],
{
    assert(reaches(board, start, target, a));
    assert(reaches(board, start, target, b));
}

/// A best route settles `first_step`.
pub proof fn lemma_first_step_of_best(
    board: Board,
    start: (int, int),
    target: (int, int),
    route: Seq<Direction>,
)
    requires
        start != target,
        is_best_route(board, start, target, route),
    ensures
        first_step(board, start, target) == Some(route[0]),
{
    let chosen = choose|r: Seq<Direction>| is_best_route(board, start, target, r);
    lemma_best_routes_agree(board, start, target, chosen, route);
}

/// Where some route reaches the target, a best route does.
pub proof fn lemma_best_route_exists(
    board: Board,
    start: (int, int),
    target: (int, int),
    route: Seq<Direction>,
)
    requires
        reaches(board, start, target, route),
    ensures
        exists|best: Seq<Direction>| is_best_route(board, start, target, best),
    decreases 4 * route.len() + first_rank(route),
{
    if !is_best_route(board, start, target, route) {
        let other = choose|other: Seq<Direction>| #[trigger]
            reaches(board, start, target, other) && !route_le(route, other);
        lemma_best_route_exists(board, start, target, other);
    }
}

/// There is a first step exactly where the target is another cell than the
/// start and some route reaches it.
pub proof fn lemma_first_step_iff_reachable(board: Board, start: (int, int), target: (int, int))
    ensures
        first_step(board, start, target) is Some <==> start != target && exists|
            route: Seq<Direction>,
        |
            reaches(board, start, target, route),
{
    if start != target {
        if exists|route: Seq<Direction>| reaches(board, start, target, route) {
            let route = choose|route: Seq<Direction>| reaches(board, start, target, route);
            lemma_best_route_exists(board, start, target, route);
        }
        if first_step(board, start, target) is Some {
            let best = choose|route: Seq<Direction>| is_best_route(board, start, target, route);
            assert(reaches(board, start, target, best));
        }
    }
}

/// The beginning of a valid route is a valid route.
pub proof fn lemma_valid_prefix(board: Board, start: (int, int), route: Seq<Direction>, n: int)
    requires
        valid_route(board, start, route),
        0 <= n <= route.len(),
    ensures
        valid_route(board, start, route.take(n)),
    decreases route.len(),
{
    if n < route.len() {
        lemma_valid_prefix(board, start, route.drop_last(), n);
        assert(route.drop_last().take(n) =~= route.take(n));
    } else {
        assert(route.take(n) =~= route);
    }
}

/// The first cell that a valid route enters is passable.
pub proof fn lemma_first_cell_passable(board: Board, start: (int, int), route: Seq<Direction>)
    requires
        valid_route(board, start, route),
        route.len() >= 1,
    ensures
        board.passable(neighbor(start, route[0])),
{
    lemma_valid_prefix(board, start, route, 1);
    let one = route.take(1);
    assert(one.drop_last().len() == 0);
    assert(end_of(start, one.drop_last()) == start);
    assert(one.last() == route[0]);
}

/// The move that `first_step` names leads to a passable cell.
pub proof fn lemma_first_step_passable(board: Board, start: (int, int), target: (int, int))
    ensures
        first_step(board, start, target) matches Some(d) ==> board.passable(neighbor(start, d)),
{
    if first_step(board, start, target) is Some {
        let route = choose|route: Seq<Direction>| is_best_route(board, start, target, route);
        lemma_first_cell_passable(board, start, route);
    }
}

/// Where no cell beside `start` is passable, there is no first step.
pub proof fn lemma_no_step_when_enclosed(board: Board, start: (int, int), target: (int, int))
    requires
        forall|d: Direction| !board.passable(#[trigger] neighbor(start, d)),
    ensures
        first_step(board, start, target) is None,
{
    lemma_first_step_passable(board, start, target);
}

/// Appending the same move to two routes keeps their order.
pub proof fn lemma_push_keeps_order(a: Seq<Direction>, b: Seq<Direction>, d: Direction)
    requires
        route_le(a, b),
    ensures
        route_le(a.push(d), b.push(d)),
{
    if a.len() > 0 {
        assert(a.push(d)[0] == a[0]);
    }
    if b.len() > 0 {
        assert(b.push(d)[0] == b[0]);
    }
}

/// The Manhattan distance between two cells.
pub open spec fn distance(a: (int, int), b: (int, int)) -> int {
    (if a.0 >= b.0 { a.0 - b.0 } else { b.0 - a.0 }) + (if a.1 >= b.1 { a.1 - b.1 } else { b.1 - a.1 })
}

/// Whether `c` lies in the rectangle that `a` and `b` are corners of.
pub open spec fn between(a: (int, int), b: (int, int), c: (int, int)) -> bool {
    &&& (a.0 <= c.0 <= b.0 || b.0 <= c.0 <= a.0)
    &&& (a.1 <= c.1 <= b.1 || b.1 <= c.1 <= a.1)
}

/// Whether every cell but `start` of the rectangle that `start` and `target`
/// are corners of is passable.
pub open spec fn clear_between(board: Board, start: (int, int), target: (int, int)) -> bool {
    forall|c: (int, int)| #[trigger] between(start, target, c) && c != start ==> board.passable(c)
}

/// A route ends no farther from its start than it has moves.
pub proof fn lemma_route_no_shorter(start: (int, int), route: Seq<Direction>)
    ensures
        distance(start, end_of(start, route)) <= route.len(),
    decreases route.len(),
{
    if route.len() > 0 {
        lemma_route_no_shorter(start, route.drop_last());
    }
}

/// A route leads where its moves after the first lead from the first cell it
/// enters.
pub proof fn lemma_end_of_rest(start: (int, int), route: Seq<Direction>)
    requires
        route.len() >= 1,
    ensures
        end_of(start, route) == end_of(neighbor(start, route[0]), route.skip(1)),
    decreases route.len(),
{
    let rest = route.skip(1);
    if route.len() == 1 {
        assert(route.drop_last().len() == 0);
        assert(end_of(start, route.drop_last()) == start);
        assert(rest.len() == 0);
    } else {
        lemma_end_of_rest(start, route.drop_last());
        assert(route.drop_last()[0] == route[0]);
        assert(rest.drop_last() =~= route.drop_last().skip(1));
        assert(rest.last() == route.last());
    }
}

/// Across a clear rectangle a route leads from corner to corner in as many
/// moves as the corners are apart.
pub proof fn lemma_straight_route(board: Board, start: (int, int), target: (int, int)) -> (route:
    Seq<Direction>)
    requires
        clear_between(board, start, target),
    ensures
        valid_route(board, start, route),
        end_of(start, route) == target,
        route.len() == distance(start, target),
    decreases distance(start, target),
{
    if start == target {
        Seq::empty()
    } else {
        let (before, d) = if target.0 > start.0 {
            ((target.0 - 1, target.1), Direction::Right)
        } else if target.0 < start.0 {
            ((target.0 + 1, target.1), Direction::Left)
        } else if target.1 > start.1 {
            ((target.0, target.1 - 1), Direction::Up)
        } else {
            ((target.0, target.1 + 1), Direction::Down)
        };
        assert forall|c: (int, int)| #[trigger]
            between(start, before, c) && c != start implies board.passable(c) by {
            assert(between(start, target, c));
        }
        let shorter = lemma_straight_route(board, start, before);
        let route = shorter.push(d);
        assert(route.drop_last() =~= shorter);
        assert(route.last() == d);
        assert(between(start, target, target));
        route
    }
}

/// Across a clear rectangle the first step leads closer: where every cell but
/// `start` of the rectangle that `start` and `target` are corners of is
/// passable, there is a first step, and the cell it leads to is one nearer to
/// `target` by Manhattan distance than `start` is.
pub proof fn lemma_first_step_gets_closer(board: Board, start: (int, int), target: (int, int))
    requires
        start != target,
        clear_between(board, start, target),
    ensures
        first_step(board, start, target) matches Some(d) && distance(neighbor(start, d), target)
            == distance(start, target) - 1,
{
    let straight = lemma_straight_route(board, start, target);
    assert(reaches(board, start, target, straight));
    lemma_best_route_exists(board, start, target, straight);
    let best = choose|route: Seq<Direction>| is_best_route(board, start, target, route);
    assert(route_le(best, straight));
    lemma_route_no_shorter(start, best);
    lemma_end_of_rest(start, best);
    lemma_route_no_shorter(neighbor(start, best[0]), best.skip(1));
}

} // verus!
