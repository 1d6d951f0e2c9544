//! The bookkeeping behind the breadth-first search: which cells were
//! discovered, in what order and along which route, and why that makes the
//! route to the first cell taken off the queue a best one.

use vstd::prelude::*;
use crate::abstractions::routes::{
    direction_at,
    end_of,
    first_step,
    fits,
    is_best_route,
    lemma_first_step_of_best,
    lemma_push_keeps_order,
    neighbor,
    rank,
    reaches,
    route_le,
    valid_route,
    Board,
};
use crate::models::Direction;

verus! {

/// A search in progress.
pub struct Search {
    /// The discovered cells in the order of their discovery; the first is the
    /// cell the search started from.
    pub order: Seq<(int, int)>,
    /// For each discovered cell, the route it was discovered along.
    pub routes: Seq<Seq<Direction>>,
    /// For each discovered cell but the first, the index of the cell it was
    /// discovered from.
    pub parents: Seq<int>,
    /// How many cells, from the front of `order`, have had all four
    /// neighbours looked at.
    pub done: int,
}

impl Search {
    /// `n` was discovered along a route at least as good as `bound`.
    pub open spec fn covered(self, n: (int, int), bound: Seq<Direction>) -> bool {
        exists|j: int|
            0 <= j < self.order.len() && #[trigger] self.order[j] == n && route_le(
                self.routes[j],
                bound,
            )
    }

    /// The neighbours of cell `i` in the first `k` directions were looked at.
    pub open spec fn closed_upto(self, board: Board, i: int, k: int) -> bool {
        forall|d: Direction|
            rank(d) < k && board.passable(#[trigger] neighbor(self.order[i], d))
                ==> self.covered(neighbor(self.order[i], d), self.routes[i].push(d))
    }

    /// No discovered route is worse than `bound`.
    pub open spec fn bounded(self, bound: Seq<Direction>) -> bool {
        forall|j: int| 0 <= j < self.routes.len() ==> route_le(#[trigger] self.routes[j], bound)
    }

    pub open spec fn routes_lead(self, board: Board, start: (int, int)) -> bool {
        forall|i: int|
            0 <= i < self.order.len() ==> {
                &&& valid_route(board, start, #[trigger] self.routes[i])
                &&& end_of(start, self.routes[i]) == self.order[i]
                &&& fits(self.order[i])
            }
    }

    pub open spec fn parents_precede(self) -> bool {
        forall|i: int|
            1 <= i < self.order.len() ==> {
                &&& 0 <= #[trigger] self.parents[i] < i
                &&& self.routes[i].len() >= 1
                &&& self.routes[i].drop_last() == self.routes[self.parents[i]]
            }
    }

    pub open spec fn sorted(self) -> bool {
        forall|i: int, j: int|
            0 <= i <= j < self.routes.len() ==> route_le(
                #[trigger] self.routes[i],
                #[trigger] self.routes[j],
            )
    }

    pub open spec fn distinct(self) -> bool {
        forall|i: int, j: int|
            0 <= i < j < self.order.len() ==> #[trigger] self.order[i] != #[trigger] self.order[j]
    }

    pub open spec fn closed_before_done(self, board: Board) -> bool {
        forall|i: int| 0 <= i < self.done ==> #[trigger] self.closed_upto(board, i, 4)
    }

    /// What holds of a search from `start` at every moment.
    pub open spec fn wf(self, board: Board, start: (int, int)) -> bool {
        &&& self.order.len() >= 1
        &&& self.routes.len() == self.order.len()
        &&& self.parents.len() == self.order.len()
        &&& 0 <= self.done <= self.order.len()
        &&& self.order[0] == start
        &&& self.routes[0].len() == 0
        &&& self.routes_lead(board, start)
        &&& self.parents_precede()
        &&& self.sorted()
        &&& self.distinct()
        &&& self.closed_before_done(board)
    }

    /// The search before anything was looked at.
    pub open spec fn begin(start: (int, int)) -> Search {
        Search { order: seq![start], routes: seq![Seq::<Direction>::empty()], parents: seq![0], done: 0 }
    }

    /// The search after the neighbour in direction `d` of the cell that is
    /// being looked at was discovered.
    pub open spec fn discover(self, d: Direction) -> Search {
        Search {
            order: self.order.push(neighbor(self.order[self.done], d)),
            routes: self.routes.push(self.routes[self.done].push(d)),
            parents: self.parents.push(self.done),
            done: self.done,
        }
    }

    /// The search after the cell that was being looked at is finished.
    pub open spec fn advance(self) -> Search {
        Search { done: self.done + 1, ..self }
    }
}

pub proof fn lemma_begin_wf(board: Board, start: (int, int))
    requires
        fits(start),
    ensures
        Search::begin(start).wf(board, start),
        Search::begin(start).bounded(Seq::<Direction>::empty().push(direction_at(0))),
        Search::begin(start).closed_upto(board, 0, 0),
{
    let s = Search::begin(start);
    assert(s.routes[0] =~= Seq::<Direction>::empty());
}

/// Discovering a passable cell that was not yet discovered keeps the search in
/// order.
pub proof fn lemma_discover(s: Search, board: Board, start: (int, int), k: int)
    requires
        s.wf(board, start),
        s.done < s.order.len(),
        0 <= k < 4,
        s.bounded(s.routes[s.done].push(direction_at(k))),
        s.closed_upto(board, s.done, k),
        board.passable(neighbor(s.order[s.done], direction_at(k))),
        forall|j: int|
            0 <= j < s.order.len() ==> #[trigger] s.order[j] != neighbor(
                s.order[s.done],
                direction_at(k),
            ),
    ensures
        s.discover(direction_at(k)).wf(board, start),
        s.discover(direction_at(k)).bounded(s.routes[s.done].push(direction_at(k))),
        s.discover(direction_at(k)).closed_upto(board, s.done, k + 1),
{
    let d = direction_at(k);
    let t = s.discover(d);
    let n = neighbor(s.order[s.done], d);
    let route = s.routes[s.done].push(d);
    let last = s.order.len() as int;
    assert(route.drop_last() =~= s.routes[s.done]);
    assert(valid_route(board, start, route));
    assert(end_of(start, route) == n);
    assert(t.routes_lead(board, start)) by {
        assert forall|i: int| 0 <= i < t.order.len() implies {
            &&& valid_route(board, start, #[trigger] t.routes[i])
            &&& end_of(start, t.routes[i]) == t.order[i]
            &&& fits(t.order[i])
        } by {
            if i < last {
                assert(t.routes[i] == s.routes[i]);
            }
        }
    }
    assert(t.parents_precede()) by {
        assert forall|i: int| 1 <= i < t.order.len() implies {
            &&& 0 <= #[trigger] t.parents[i] < i
            &&& t.routes[i].len() >= 1
            &&& t.routes[i].drop_last() == t.routes[t.parents[i]]
        } by {
            if i < last {
                assert(t.parents[i] == s.parents[i]);
                assert(t.routes[i] == s.routes[i]);
            }
        }
    }
    assert(t.sorted()) by {
        assert forall|i: int, j: int| 0 <= i <= j < t.routes.len() implies route_le(
            #[trigger] t.routes[i],
            #[trigger] t.routes[j],
        ) by {
            if j < last {
                assert(t.routes[i] == s.routes[i] && t.routes[j] == s.routes[j]);
            } else if i < last {
                assert(t.routes[i] == s.routes[i]);
            }
        }
    }
    assert(t.distinct()) by {
        assert forall|i: int, j: int| 0 <= i < j < t.order.len() implies #[trigger] t.order[i]
            != #[trigger] t.order[j] by {
            if j < last {
                assert(t.order[i] == s.order[i] && t.order[j] == s.order[j]);
            } else {
                assert(t.order[i] == s.order[i]);
            }
        }
    }
    assert(t.closed_before_done(board)) by {
        assert forall|i: int| 0 <= i < t.done implies #[trigger] t.closed_upto(board, i, 4) by {
            assert(s.closed_upto(board, i, 4));
            lemma_closed_survives(s, board, d, i, 4);
        }
    }
    assert(t.bounded(route)) by {
        assert forall|j: int| 0 <= j < t.routes.len() implies route_le(
            #[trigger] t.routes[j],
            route,
        ) by {
            if j < last {
                assert(t.routes[j] == s.routes[j]);
            }
        }
    }
    lemma_closed_survives(s, board, d, s.done, k);
    assert(t.closed_upto(board, s.done, k + 1)) by {
        assert forall|e: Direction|
            rank(e) < k + 1 && board.passable(
                #[trigger] neighbor(t.order[s.done], e),
            ) implies t.covered(neighbor(t.order[s.done], e), t.routes[s.done].push(e)) by {
            if rank(e) == k {
                assert(e == d);
                assert(t.order[last] == n);
                assert(route_le(t.routes[last], route));
            } else {
                assert(t.closed_upto(board, s.done, k));
            }
        }
    }
}

/// What was looked at stays looked at when another cell is discovered.
pub proof fn lemma_closed_survives(s: Search, board: Board, d: Direction, i: int, k: int)
    requires
        s.order.len() == s.routes.len(),
        0 <= s.done < s.order.len(),
        0 <= i < s.order.len(),
        s.closed_upto(board, i, k),
    ensures
        s.discover(d).closed_upto(board, i, k),
{
    let t = s.discover(d);
    assert forall|e: Direction|
        rank(e) < k && board.passable(#[trigger] neighbor(t.order[i], e)) implies t.covered(
        neighbor(t.order[i], e),
        t.routes[i].push(e),
    ) by {
        assert(t.order[i] == s.order[i]);
        assert(t.routes[i] == s.routes[i]);
        assert(s.covered(neighbor(s.order[i], e), s.routes[i].push(e)));
        let j = choose|j: int|
            0 <= j < s.order.len() && #[trigger] s.order[j] == neighbor(s.order[i], e) && route_le(
                s.routes[j],
                s.routes[i].push(e),
            );
        assert(t.order[j] == s.order[j]);
        assert(t.routes[j] == s.routes[j]);
    }
}

/// A neighbour that need not be discovered: it is impassable, or it was
/// discovered before.
pub proof fn lemma_skip(s: Search, board: Board, start: (int, int), k: int)
    requires
        s.wf(board, start),
        s.done < s.order.len(),
        0 <= k < 4,
        s.bounded(s.routes[s.done].push(direction_at(k))),
        s.closed_upto(board, s.done, k),
        !board.passable(neighbor(s.order[s.done], direction_at(k))) || exists|j: int|
            0 <= j < s.order.len() && #[trigger] s.order[j] == neighbor(
                s.order[s.done],
                direction_at(k),
            ),
    ensures
        s.closed_upto(board, s.done, k + 1),
{
    let d = direction_at(k);
    assert forall|e: Direction|
        rank(e) < k + 1 && board.passable(#[trigger] neighbor(s.order[s.done], e)) implies s.covered(
        neighbor(s.order[s.done], e),
        s.routes[s.done].push(e),
    ) by {
        if rank(e) == k {
            assert(e == d);
            let j = choose|j: int|
                0 <= j < s.order.len() && #[trigger] s.order[j] == neighbor(s.order[s.done], d);
            assert(route_le(s.routes[j], s.routes[s.done].push(d)));
        }
    }
}

/// Going on to the next direction keeps the bound on the discovered routes.
pub proof fn lemma_next_direction(s: Search, k: int)
    requires
        0 <= s.done < s.routes.len(),
        0 <= k < 3,
        s.bounded(s.routes[s.done].push(direction_at(k))),
    ensures
        s.bounded(s.routes[s.done].push(direction_at(k + 1))),
{
    let r = s.routes[s.done];
    let a = r.push(direction_at(k));
    let b = r.push(direction_at(k + 1));
    if r.len() > 0 {
        assert(a[0] == r[0] && b[0] == r[0]);
    }
    assert(route_le(a, b));
    assert forall|j: int| 0 <= j < s.routes.len() implies route_le(#[trigger] s.routes[j], b) by {
        assert(route_le(s.routes[j], a));
    }
}

/// Going on to the next cell keeps the search in order and the bound on the
/// discovered routes.
pub proof fn lemma_advance(s: Search, board: Board, start: (int, int))
    requires
        s.wf(board, start),
        s.done < s.order.len(),
        s.closed_upto(board, s.done, 4),
        s.bounded(s.routes[s.done].push(direction_at(3))),
    ensures
        s.advance().wf(board, start),
        s.done + 1 < s.order.len() ==> s.advance().bounded(
            s.routes[s.done + 1].push(direction_at(0)),
        ),
        s.done + 1 < s.order.len() ==> s.advance().closed_upto(board, s.done + 1, 0),
{
    let t = s.advance();
    assert(t.closed_before_done(board)) by {
        assert forall|i: int| 0 <= i < t.done implies #[trigger] t.closed_upto(board, i, 4) by {
            if i < s.done {
                assert(s.closed_upto(board, i, 4));
            }
        }
    }
    if s.done + 1 < s.order.len() {
        let r = s.routes[s.done];
        let q = s.routes[s.done + 1];
        let a = r.push(direction_at(3));
        let b = q.push(direction_at(0));
        assert(route_le(r, q));
        assert(s.parents[s.done + 1] >= 0);
        assert(q.len() >= 1);
        assert(b[0] == q[0]);
        if r.len() > 0 {
            assert(a[0] == r[0]);
        }
        assert(route_le(a, b));
        assert forall|j: int| 0 <= j < t.routes.len() implies route_le(#[trigger] t.routes[j], b) by {
            assert(route_le(s.routes[j], a));
        }
    }
}

/// Every route over passable cells ends at a cell that was discovered along a
/// route at least as good, unless it is longer than the route to the cell
/// that is being looked at.
pub proof fn lemma_route_covered(s: Search, board: Board, start: (int, int), route: Seq<Direction>)
    requires
        s.wf(board, start),
        valid_route(board, start, route),
    ensures
        s.covered(end_of(start, route), route) || (s.done < s.order.len() && s.routes[s.done].len()
            < route.len()),
    decreases route.len(),
{
    if route.len() == 0 {
        assert(s.order[0] == start);
        assert(route_le(s.routes[0], route));
    } else {
        let before = route.drop_last();
        let d = route.last();
        lemma_route_covered(s, board, start, before);
        if s.covered(end_of(start, before), before) {
            let i = choose|i: int|
                0 <= i < s.order.len() && #[trigger] s.order[i] == end_of(start, before) && route_le(
                    s.routes[i],
                    before,
                );
            if i < s.done {
                assert(s.closed_upto(board, i, 4));
                assert(board.passable(neighbor(s.order[i], d)));
                assert(s.covered(neighbor(s.order[i], d), s.routes[i].push(d)));
                let j = choose|j: int|
                    0 <= j < s.order.len() && #[trigger] s.order[j] == neighbor(s.order[i], d)
                        && route_le(s.routes[j], s.routes[i].push(d));
                lemma_push_keeps_order(s.routes[i], before, d);
                assert(before.push(d) =~= route);
                assert(route_le(s.routes[j], route));
            } else {
                assert(route_le(s.routes[s.done], s.routes[i]));
            }
        }
    }
}

/// The cell that is taken off the queue was discovered along a best route.
pub proof fn lemma_found(s: Search, board: Board, start: (int, int), target: (int, int))
    requires
        s.wf(board, start),
        s.done < s.order.len(),
        s.order[s.done] == target,
        target != start,
    ensures
        s.done >= 1,
        is_best_route(board, start, target, s.routes[s.done]),
        first_step(board, start, target) == Some(s.routes[s.done][0]),
{
    let best = s.routes[s.done];
    assert(s.done >= 1);
    assert(s.parents[s.done] >= 0);
    assert(reaches(board, start, target, best));
    assert forall|other: Seq<Direction>| #[trigger]
        reaches(board, start, target, other) implies route_le(best, other) by {
        lemma_route_covered(s, board, start, other);
        if s.covered(target, other) {
            let j = choose|j: int|
                0 <= j < s.order.len() && #[trigger] s.order[j] == target && route_le(
                    s.routes[j],
                    other,
                );
            if j < s.done {
                assert(s.order[j] != s.order[s.done]);
            } else if j > s.done {
                assert(s.order[s.done] != s.order[j]);
            }
        }
    }
    lemma_first_step_of_best(board, start, target, best);
}

/// When every discovered cell was looked at and none was the target, no route
/// leads there.
pub proof fn lemma_exhausted(s: Search, board: Board, start: (int, int), target: (int, int))
    requires
        s.wf(board, start),
        s.done == s.order.len(),
        forall|j: int| 0 <= j < s.order.len() ==> #[trigger] s.order[j] != target,
    ensures
        first_step(board, start, target) is None,
{
    assert forall|route: Seq<Direction>| !is_best_route(board, start, target, route) by {
        if reaches(board, start, target, route) {
            lemma_route_covered(s, board, start, route);
        }
    }
}

} // verus!
