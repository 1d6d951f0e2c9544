use std::collections::{HashMap, HashSet, VecDeque};
use vstd::prelude::*;
use crate::abstractions::routes::{
    cell_of,
    clear_between,
    direction_at,
    end_of,
    first_step,
    fits,
    lemma_first_step_gets_closer,
    lemma_first_step_iff_reachable,
    lemma_first_step_passable,
    lemma_no_step_when_enclosed,
    neighbor,
    reaches,
    valid_route,
    Board,
};
use crate::abstractions::search::{
    lemma_advance,
    lemma_begin_wf,
    lemma_discover,
    lemma_exhausted,
    lemma_found,
    lemma_next_direction,
    lemma_skip,
    Search,
};
use crate::grid::{in_grid, manhattan, manhattan_distance, same_cell, wrapped_step};
use crate::models::Direction;
use crate::objects::obstacle::{any_occupies, obstructed};
use crate::objects::{Food, Obstacle, Snake};

verus! {

broadcast use vstd::std_specs::hash::group_hash_axioms;

/// Chooses the snake's next heading.
pub trait AiController {
    /// The heading to take next, or `None` to keep the present one.
    fn get_direction(
        &self,
        snake: &Snake,
        foods: &[Food],
        obstacles: &[Obstacle],
        grid_size: i32,
    ) -> (direction: Option<Direction>)
        requires
            snake@.len() >= 1,
    ;
}

/// Steers along a shortest route to the nearest food, found breadth first.
pub struct GreedyBfsAi;

/// The board that a snake, a list of obstacles and a grid side make up.
pub open spec fn board_of(snake: Seq<(i32, i32)>, obstacles: Seq<Obstacle>, grid_size: int) -> Board {
    Board { snake, obstacles, grid_size }
}

/// Food `i` is the nearest to `head` by Manhattan distance, and the first
/// among equally near ones.
pub open spec fn is_nearest(head: (i32, i32), foods: Seq<Food>, i: int) -> bool {
    &&& 0 <= i < foods.len()
    &&& forall|j: int|
        0 <= j < foods.len() ==> manhattan(head, foods[i].position) <= manhattan(
            head,
            #[trigger] foods[j].position,
        )
    &&& forall|j: int|
        0 <= j < i ==> manhattan(head, foods[i].position) < manhattan(
            head,
            #[trigger] foods[j].position,
        )
}

/// The position of the food nearest to `head`, or `None` without food.
pub open spec fn nearest_food(head: (i32, i32), foods: Seq<Food>) -> Option<(i32, i32)> {
    if foods.len() == 0 {
        None
    } else {
        Some(foods[choose|i: int| is_nearest(head, foods, i)].position)
    }
}

/// The cell that a first move leads to from `start`.
pub open spec fn step_cell(start: (i32, i32), step: Option<Direction>) -> Option<(i32, i32)> {
    match step {
        Some(d) => Some(
            (neighbor(cell_of(start), d).0 as i32, neighbor(cell_of(start), d).1 as i32),
        ),
        None => None,
    }
}

/// The heading that a move from `start` to `next` has; `Up` where `next` is no
/// neighbour of `start`.
pub open spec fn direction_of_move(start: (i32, i32), next: (i32, i32)) -> Direction {
    if next.0 - start.0 == 1 && next.1 - start.1 == 0 {
        Direction::Right
    } else if next.0 - start.0 == -1 && next.1 - start.1 == 0 {
        Direction::Left
    } else if next.0 - start.0 == 0 && next.1 - start.1 == -1 {
        Direction::Down
    } else {
        Direction::Up
    }
}

/// The heading that `GreedyBfsAi` chooses: the first move of the best route
/// from the snake's head to the nearest food.
pub open spec fn chosen_direction(
    snake: Seq<(i32, i32)>,
    foods: Seq<Food>,
    obstacles: Seq<Obstacle>,
    grid_size: int,
) -> Option<Direction> {
    match nearest_food(snake[0], foods) {
        Some(target) => first_step(
            board_of(snake, obstacles, grid_size),
            cell_of(snake[0]),
            cell_of(target),
        ),
        None => None,
    }
}

/// `GreedyBfsAi` never steers into the snake or an obstacle: the cell that the
/// head enters by the chosen heading lies on the grid, no segment of the snake
/// lies on it and no obstacle covers it. Being on the grid, it is also the cell
/// that a wrapping step in that heading leads to.
pub proof fn lemma_chosen_direction_is_safe(
    snake: Seq<(i32, i32)>,
    foods: Seq<Food>,
    obstacles: Seq<Obstacle>,
    grid_size: int,
)
    requires
        snake.len() >= 1,
    ensures
        chosen_direction(snake, foods, obstacles, grid_size) matches Some(d) ==> {
            let entered = step_cell(snake[0], Some(d)).unwrap();
            &&& cell_of(entered) == neighbor(cell_of(snake[0]), d)
            &&& entered == wrapped_step(snake[0], d, grid_size)
            &&& in_grid(entered, grid_size)
            &&& !snake.contains(entered)
            &&& !obstructed(obstacles, entered)
        },
{
    match nearest_food(snake[0], foods) {
        Some(target) => {
            lemma_first_step_passable(
                board_of(snake, obstacles, grid_size),
                cell_of(snake[0]),
                cell_of(target),
            );
            match chosen_direction(snake, foods, obstacles, grid_size) {
                Some(d) => {
                    let n = neighbor(cell_of(snake[0]), d);
                    vstd::arithmetic::div_mod::lemma_small_mod(n.0 as nat, grid_size as nat);
                    vstd::arithmetic::div_mod::lemma_small_mod(n.1 as nat, grid_size as nat);
                },
                None => {},
            }
        },
        None => {},
    }
}

/// Across a clear rectangle the engine moves the head closer
/// to the food: where the nearest food is not under the head and every cell
/// but the head's of the rectangle that the head and that food are corners of
/// may be entered, `GreedyBfsAi` chooses a heading, and the cell that the head
/// enters by it is one nearer to the food by Manhattan distance.
pub proof fn lemma_chosen_direction_gets_closer(
    snake: Seq<(i32, i32)>,
    foods: Seq<Food>,
    obstacles: Seq<Obstacle>,
    grid_size: int,
)
    requires
        snake.len() >= 1,
        nearest_food(snake[0], foods) matches Some(target) && target != snake[0] && clear_between(
            board_of(snake, obstacles, grid_size),
            cell_of(snake[0]),
            cell_of(target),
        ),
    ensures
        chosen_direction(snake, foods, obstacles, grid_size) matches Some(d) && manhattan(
            step_cell(snake[0], Some(d)).unwrap(),
            nearest_food(snake[0], foods).unwrap(),
        ) == manhattan(snake[0], nearest_food(snake[0], foods).unwrap()) - 1,
{
    let target = nearest_food(snake[0], foods).unwrap();
    let board = board_of(snake, obstacles, grid_size);
    lemma_first_step_gets_closer(board, cell_of(snake[0]), cell_of(target));
    lemma_first_step_passable(board, cell_of(snake[0]), cell_of(target));
}

/// A head that is shut in on all four sides gets no heading: where each cell
/// beside the head is off the grid, on the snake or under an obstacle,
/// `GreedyBfsAi` chooses `None`.
pub proof fn lemma_enclosed_head_gets_none(
    snake: Seq<(i32, i32)>,
    foods: Seq<Food>,
    obstacles: Seq<Obstacle>,
    grid_size: int,
)
    requires
        snake.len() >= 1,
        forall|d: Direction|
            !board_of(snake, obstacles, grid_size).passable(
                #[trigger] neighbor(cell_of(snake[0]), d),
            ),
    ensures
        chosen_direction(snake, foods, obstacles, grid_size) is None,
{
    match nearest_food(snake[0], foods) {
        Some(target) => {
            lemma_no_step_when_enclosed(
                board_of(snake, obstacles, grid_size),
                cell_of(snake[0]),
                cell_of(target),
            );
        },
        None => {},
    }
}

/// A number that stands for one cell and no other.
pub open spec fn spec_cell_key(c: (int, int)) -> int {
    (c.0 + 0x8000_0000) * 0x1_0000_0000 + (c.1 + 0x8000_0000)
}

pub proof fn lemma_cell_key_injective(a: (int, int), b: (int, int))
    requires
        fits(a),
        fits(b),
        spec_cell_key(a) == spec_cell_key(b),
    ensures
        a == b,
{
}

/// Computes `spec_cell_key`.
pub fn cell_key(p: (i32, i32)) -> (k: u64)
    ensures
        k == spec_cell_key(cell_of(p)),
{
    let x: u64 = (p.0 as i64 + 0x8000_0000) as u64;
    let y: u64 = (p.1 as i64 + 0x8000_0000) as u64;
    x * 0x1_0000_0000 + y
}

/// The key of the cell discovered at place `j`.
pub open spec fn key_at(s: Search, j: int) -> int {
    spec_cell_key(s.order[j])
}

/// How the collections of a running search stand for its bookkeeping: the
/// visited set holds the keys of the discovered cells, the queue holds the
/// discovered cells from place `front` on, and the parent map takes the key of
/// every discovered cell but the first to the cell it was discovered from.
pub open spec fn mirrors(
    s: Search,
    front: int,
    visited: Set<u64>,
    queue: Seq<(i32, i32)>,
    parent_map: Map<u64, (i32, i32)>,
) -> bool {
    &&& forall|j: int| 0 <= j < s.order.len() ==> visited.contains(#[trigger] key_at(s, j) as u64)
    &&& forall|k: u64| #[trigger]
        visited.contains(k) ==> exists|j: int| 0 <= j < s.order.len() && #[trigger] key_at(s, j) == k
    &&& queue.len() == s.order.len() - front
    &&& forall|i: int| 0 <= i < queue.len() ==> cell_of(#[trigger] queue[i]) == s.order[front + i]
    &&& forall|j: int|
        1 <= j < s.order.len() ==> parent_map.contains_key(#[trigger] key_at(s, j) as u64)
            && cell_of(parent_map[key_at(s, j) as u64]) == s.order[s.parents[j]]
    &&& forall|k: u64| #[trigger]
        parent_map.contains_key(k) ==> exists|j: int|
            1 <= j < s.order.len() && #[trigger] key_at(s, j) == k
}

/// Discovering `cell` from `curr` and entering it into the three collections
/// keeps them in step with the bookkeeping.
pub proof fn lemma_mirrors_discover(
    s: Search,
    board: Board,
    start: (int, int),
    d: Direction,
    visited: Set<u64>,
    queue: Seq<(i32, i32)>,
    parent_map: Map<u64, (i32, i32)>,
    cell: (i32, i32),
    curr: (i32, i32),
)
    requires
        s.wf(board, start),
        s.done < s.order.len(),
        mirrors(s, s.done + 1, visited, queue, parent_map),
        cell_of(curr) == s.order[s.done],
        cell_of(cell) == neighbor(s.order[s.done], d),
        forall|j: int| 0 <= j < s.order.len() ==> #[trigger] s.order[j] != cell_of(cell),
    ensures
        mirrors(
            s.discover(d),
            s.done + 1,
            visited.insert(spec_cell_key(cell_of(cell)) as u64),
            queue.push(cell),
            parent_map.insert(spec_cell_key(cell_of(cell)) as u64, curr),
        ),
{
    let t = s.discover(d);
    let key = spec_cell_key(cell_of(cell)) as u64;
    let last = s.order.len() as int;
    let visited2 = visited.insert(key);
    let queue2 = queue.push(cell);
    let parent_map2 = parent_map.insert(key, curr);
    assert forall|j: int| 0 <= j < last implies #[trigger] key_at(t, j) == key_at(s, j) && key_at(
        s,
        j,
    ) != key by {
        assert(t.order[j] == s.order[j]);
        assert(s.order[j] != cell_of(cell));
        assert(valid_route(board, start, s.routes[j]));
        if key_at(s, j) == key {
            lemma_cell_key_injective(s.order[j], cell_of(cell));
        }
    }
    assert(key_at(t, last) == key);
    assert forall|j: int| 0 <= j < t.order.len() implies visited2.contains(
        #[trigger] key_at(t, j) as u64,
    ) by {
        if j < last {
            assert(visited.contains(key_at(s, j) as u64));
        }
    }
    assert forall|k: u64| #[trigger] visited2.contains(k) implies exists|j: int|
        0 <= j < t.order.len() && #[trigger] key_at(t, j) == k by {
        if k == key {
            assert(key_at(t, last) == k);
        } else {
            assert(visited.contains(k));
            let j = choose|j: int| 0 <= j < s.order.len() && #[trigger] key_at(s, j) == k;
            assert(key_at(t, j) == k);
        }
    }
    assert forall|i: int| 0 <= i < queue2.len() implies cell_of(#[trigger] queue2[i]) == t.order[s.done
        + 1 + i] by {
        if i < queue.len() {
            assert(queue2[i] == queue[i]);
            assert(t.order[s.done + 1 + i] == s.order[s.done + 1 + i]);
        }
    }
    assert forall|j: int| 1 <= j < t.order.len() implies parent_map2.contains_key(
        #[trigger] key_at(t, j) as u64,
    ) && cell_of(parent_map2[key_at(t, j) as u64]) == t.order[t.parents[j]] by {
        if j < last {
            assert(key_at(t, j) == key_at(s, j));
            assert(parent_map.contains_key(key_at(s, j) as u64));
            assert(t.parents[j] == s.parents[j]);
            assert(0 <= s.parents[j] < j);
            assert(t.order[s.parents[j]] == s.order[s.parents[j]]);
        } else {
            assert(t.parents[j] == s.done);
            assert(t.order[s.done] == s.order[s.done]);
        }
    }
    assert forall|k: u64| #[trigger] parent_map2.contains_key(k) implies exists|j: int|
        1 <= j < t.order.len() && #[trigger] key_at(t, j) == k by {
        if k == key {
            assert(key_at(t, last) == k);
        } else {
            assert(parent_map.contains_key(k));
            let j = choose|j: int| 1 <= j < s.order.len() && #[trigger] key_at(s, j) == k;
            assert(key_at(t, j) == k);
        }
    }
}

/// Finishing a cell leaves the three collections in step with the
/// bookkeeping.
pub proof fn lemma_mirrors_advance(
    s: Search,
    visited: Set<u64>,
    queue: Seq<(i32, i32)>,
    parent_map: Map<u64, (i32, i32)>,
)
    requires
        mirrors(s, s.done + 1, visited, queue, parent_map),
    ensures
        mirrors(s.advance(), s.done + 1, visited, queue, parent_map),
{
    let t = s.advance();
    assert forall|j: int| 0 <= j < t.order.len() implies visited.contains(
        #[trigger] key_at(t, j) as u64,
    ) by {
        assert(key_at(t, j) == key_at(s, j));
    }
    assert forall|k: u64| #[trigger] visited.contains(k) implies exists|j: int|
        0 <= j < t.order.len() && #[trigger] key_at(t, j) == k by {
        let j = choose|j: int| 0 <= j < s.order.len() && #[trigger] key_at(s, j) == k;
        assert(key_at(t, j) == k);
    }
    assert forall|j: int| 1 <= j < t.order.len() implies parent_map.contains_key(
        #[trigger] key_at(t, j) as u64,
    ) && cell_of(parent_map[key_at(t, j) as u64]) == t.order[t.parents[j]] by {
        assert(key_at(t, j) == key_at(s, j));
    }
    assert forall|k: u64| #[trigger] parent_map.contains_key(k) implies exists|j: int|
        1 <= j < t.order.len() && #[trigger] key_at(t, j) == k by {
        let j = choose|j: int| 1 <= j < s.order.len() && #[trigger] key_at(s, j) == k;
        assert(key_at(t, j) == k);
    }
}

/// The cells of the grid of side `grid_size`.
pub open spec fn grid_cells(grid_size: int) -> Set<(int, int)> {
    Set::new(|c: (int, int)| 0 <= c.0 < grid_size && 0 <= c.1 < grid_size)
}

pub proof fn lemma_grid_cells_finite(grid_size: int)
    ensures
        grid_cells(grid_size).finite(),
{
    if grid_size <= 0 {
        assert(grid_cells(grid_size) =~= Set::<(int, int)>::empty());
    } else {
        let g = grid_size;
        assert(0 <= g * g) by (nonlinear_arith)
            requires
                g > 0,
        ;
        let range = vstd::set_lib::set_int_range(0, g * g);
        vstd::set_lib::lemma_int_range(0, g * g);
        let f = |i: int| (i % g, i / g);
        range.lemma_map_finite(f);
        assert forall|c: (int, int)| grid_cells(g).contains(c) implies range.map(f).contains(c) by {
            let i = c.1 * g + c.0;
            assert(0 <= i < g * g) by (nonlinear_arith)
                requires
                    0 <= c.0 < g,
                    0 <= c.1 < g,
                    i == c.1 * g + c.0,
            ;
            vstd::arithmetic::div_mod::lemma_fundamental_div_mod_converse(i, g, c.1, c.0);
            assert(range.contains(i));
            assert(f(i) == c);
        }
        vstd::set_lib::lemma_set_subset_finite(range.map(f), grid_cells(g));
    }
}

/// The cell beside `curr` in the direction at place `k` of the order right,
/// left, up, down.
pub fn neighbor_at(curr: (i32, i32), k: usize) -> (n: (i64, i64))
    ensures
        (n.0 as int, n.1 as int) == neighbor(cell_of(curr), direction_at(k as int)),
{
    let x: i64 = curr.0 as i64;
    let y: i64 = curr.1 as i64;
    if k == 0 {
        (x + 1, y)
    } else if k == 1 {
        (x - 1, y)
    } else if k == 2 {
        (x, y + 1)
    } else {
        (x, y - 1)
    }
}

impl GreedyBfsAi {
    pub fn new() -> (ai: Self) {
        Self {  }
    }

    /// Whether an obstacle covers `pos`.
    pub fn is_obstacle(&self, pos: (i32, i32), obstacles: &[Obstacle]) -> (r: bool)
        ensures
            r == obstructed(obstacles@, pos),
    {
        any_occupies(obstacles, pos)
    }

    /// Whether the search may go on to `pos`: the snake may enter the cell and
    /// the search has not been there.
    pub fn is_valid(
        &self,
        pos: (i64, i64),
        obstacles: &[Obstacle],
        visited: &HashSet<u64>,
        grid_size: i32,
        snake: &Snake,
    ) -> (r: bool)
        ensures
            r == (board_of(snake@, obstacles@, grid_size as int).passable((pos.0 as int, pos.1 as int))
                && !visited@.contains(spec_cell_key((pos.0 as int, pos.1 as int)) as u64)),
    {
        if pos.0 < 0 || pos.1 < 0 || pos.0 >= grid_size as i64 || pos.1 >= grid_size as i64 {
            return false;
        }
        let cell: (i32, i32) = (pos.0 as i32, pos.1 as i32);
        if visited.contains(&cell_key(cell)) || snake.will_collide(cell) || self.is_obstacle(
            cell,
            obstacles,
        ) {
            return false;
        }
        true
    }

    /// Walks the parent map back from `target`, collecting the path, and gives
    /// the path's cell next to the start.
    fn first_cell_of_path(
        &self,
        parent_map: &HashMap<u64, (i32, i32)>,
        target: (i32, i32),
        Ghost(s): Ghost<Search>,
        Ghost(board): Ghost<Board>,
        Ghost(origin): Ghost<(int, int)>,
        Ghost(visited): Ghost<Set<u64>>,
        Ghost(queue): Ghost<Seq<(i32, i32)>>,
    ) -> (next: Option<(i32, i32)>)
        requires
            s.wf(board, origin),
            s.done < s.order.len(),
            s.order[s.done] == cell_of(target),
            fits(origin),
            mirrors(s, s.done + 1, visited, queue, parent_map@),
        ensures
            s.done == 0 ==> next is None,
            s.done > 0 ==> next == Some(
                (
                    neighbor(origin, s.routes[s.done][0]).0 as i32,
                    neighbor(origin, s.routes[s.done][0]).1 as i32,
                ),
            ),
    {
        let mut path: Vec<(i32, i32)> = Vec::new();
        let mut pos = target;
        let ghost mut j = s.done;
        let ghost mut child = s.done;
        let ghost whole = s.routes[s.done];
        assert(whole.take(whole.len() as int) =~= whole);
        loop
            invariant
                s.wf(board, origin),
                s.done < s.order.len(),
                mirrors(s, s.done + 1, visited, queue, parent_map@),
                whole == s.routes[s.done],
                0 <= j <= s.done,
                cell_of(pos) == s.order[j],
                s.routes[j].len() <= whole.len(),
                s.routes[j] == whole.take(s.routes[j].len() as int),
                path@.len() == 0 <==> j == s.done,
                path@.len() > 0 ==> {
                    &&& 1 <= child <= s.done
                    &&& s.parents[child] == j
                    &&& cell_of(path@[path@.len() - 1]) == s.order[child]
                    &&& s.routes[child].len() <= whole.len()
                    &&& s.routes[child] == whole.take(s.routes[child].len() as int)
                },
            decreases j,
        {
            let key = cell_key(pos);
            assert(key == key_at(s, j));
            match parent_map.get(&key) {
                Some(parent) => {
                    proof {
                        let i = choose|i: int| 1 <= i < s.order.len() && #[trigger] key_at(s, i) == key;
                        assert(valid_route(board, origin, s.routes[i]));
                        assert(valid_route(board, origin, s.routes[j]));
                        lemma_cell_key_injective(s.order[i], s.order[j]);
                        if i < j {
                            assert(s.order[i] != s.order[j]);
                        } else if j < i {
                            assert(s.order[j] != s.order[i]);
                        }
                        assert(parent_map@.contains_key(key_at(s, j) as u64));
                        assert(0 <= s.parents[j] < j);
                        assert(s.routes[j].drop_last() == s.routes[s.parents[j]]);
                        assert(whole.take(s.routes[j].len() as int).drop_last() =~= whole.take(
                            s.routes[j].len() - 1,
                        ));
                        child = j;
                        j = s.parents[j];
                    }
                    path.push(pos);
                    pos = *parent;
                },
                None => {
                    proof {
                        if j >= 1 {
                            assert(parent_map@.contains_key(key_at(s, j) as u64));
                        }
                        assert(j == 0);
                        if path@.len() > 0 {
                            let r = s.routes[child];
                            assert(r.drop_last() == s.routes[0]);
                            assert(r.len() == 1);
                            assert(r[0] == whole[0]);
                            assert(valid_route(board, origin, s.routes[child]));
                            assert(r.drop_last().len() == 0);
                            assert(end_of(origin, r.drop_last()) == origin);
                            assert(r.last() == r[0]);
                        }
                    }
                    if path.len() == 0 {
                        return None;
                    }
                    return Some(path[path.len() - 1]);
                },
            }
        }
    }

    /// The cell to move to from `start` on the way to `target`: the first cell
    /// of the best route, found by a breadth-first search that tries the
    /// neighbours of a cell in the order right, left, up, down.
    pub fn bfs(
        &self,
        snake: &Snake,
        obstacles: &[Obstacle],
        grid_size: i32,
        start: (i32, i32),
        target: (i32, i32),
    ) -> (next: Option<(i32, i32)>)
        ensures
            next == step_cell(
                start,
                first_step(
                    board_of(snake@, obstacles@, grid_size as int),
                    cell_of(start),
                    cell_of(target),
                ),
            ),
            next is Some <==> start != target && exists|route: Seq<Direction>|
                reaches(
                    board_of(snake@, obstacles@, grid_size as int),
                    cell_of(start),
                    cell_of(target),
                    route,
                ),
    {
        let ghost board = board_of(snake@, obstacles@, grid_size as int);
        let ghost origin = cell_of(start);
        let ghost goal = cell_of(target);
        let mut visited: HashSet<u64> = HashSet::new();
        let mut queue: VecDeque<(i32, i32)> = VecDeque::new();
        let mut parent_map: HashMap<u64, (i32, i32)> = HashMap::new();

        queue.push_back(start);
        visited.insert(cell_key(start));

        let ghost mut s = Search::begin(origin);
        let ghost mut unseen = grid_cells(grid_size as int);
        proof {
            lemma_begin_wf(board, origin);
            lemma_grid_cells_finite(grid_size as int);
            assert(mirrors(s, 0, visited@, queue@, parent_map@)) by {
                assert(key_at(s, 0) == spec_cell_key(origin));
            }
        }

        loop
            invariant
                board == board_of(snake@, obstacles@, grid_size as int),
                origin == cell_of(start),
                goal == cell_of(target),
                s.wf(board, origin),
                mirrors(s, s.done, visited@, queue@, parent_map@),
                unseen.finite(),
                forall|c: (int, int)|
                    grid_cells(grid_size as int).contains(c) && !s.order.contains(c)
                        ==> #[trigger] unseen.contains(c),
                s.done < s.order.len() ==> s.bounded(s.routes[s.done].push(direction_at(0))),
                forall|j: int| 0 <= j < s.done ==> #[trigger] s.order[j] != goal,
            decreases unseen.len() + queue@.len(),
        {
            let ghost size_before = unseen.len() + queue@.len();
            let curr = match queue.pop_front() {
                Some(cell) => cell,
                None => {
                    proof {
                        lemma_exhausted(s, board, origin, goal);
                        lemma_first_step_iff_reachable(board, origin, goal);
                    }
                    return None;
                },
            };
            assert(cell_of(curr) == s.order[s.done]);
            if same_cell(curr, target) {
                proof {
                    lemma_first_step_iff_reachable(board, origin, goal);
                    if origin != goal {
                        lemma_found(s, board, origin, goal);
                    }
                    if s.done == 0 {
                        assert(origin == goal);
                    } else {
                        assert(s.order[0] != s.order[s.done]);
                    }
                }
                return self.first_cell_of_path(
                    &parent_map,
                    target,
                    Ghost(s),
                    Ghost(board),
                    Ghost(origin),
                    Ghost(visited@),
                    Ghost(queue@),
                );
            }
            let mut k: usize = 0;
            while k < 4
                invariant
                    k <= 4,
                    board == board_of(snake@, obstacles@, grid_size as int),
                    origin == cell_of(start),
                    goal == cell_of(target),
                    s.wf(board, origin),
                    s.done < s.order.len(),
                    cell_of(curr) == s.order[s.done],
                    s.order[s.done] != goal,
                    mirrors(s, s.done + 1, visited@, queue@, parent_map@),
                    unseen.finite(),
                    forall|c: (int, int)|
                        grid_cells(grid_size as int).contains(c) && !s.order.contains(c)
                            ==> #[trigger] unseen.contains(c),
                    s.bounded(s.routes[s.done].push(direction_at(k as int))),
                    s.closed_upto(board, s.done, k as int),
                    forall|j: int| 0 <= j < s.done ==> #[trigger] s.order[j] != goal,
                    unseen.len() + queue@.len() + 1 == size_before,
                decreases 4 - k,
            {
                let new_pos = neighbor_at(curr, k);
                let ghost n = neighbor(s.order[s.done], direction_at(k as int));
                if self.is_valid(new_pos, obstacles, &visited, grid_size, snake) {
                    let cell: (i32, i32) = (new_pos.0 as i32, new_pos.1 as i32);
                    let key = cell_key(cell);
                    proof {
                        assert forall|j: int| 0 <= j < s.order.len() implies #[trigger] s.order[j]
                            != n by {
                            assert(visited@.contains(key_at(s, j) as u64));
                        }
                        lemma_discover(s, board, origin, k as int);
                        assert(unseen.contains(n)) by {
                            assert(grid_cells(grid_size as int).contains(n));
                            assert(!s.order.contains(n));
                        }
                    }
                    proof {
                        lemma_mirrors_discover(
                            s,
                            board,
                            origin,
                            direction_at(k as int),
                            visited@,
                            queue@,
                            parent_map@,
                            cell,
                            curr,
                        );
                    }
                    visited.insert(key);
                    queue.push_back(cell);
                    parent_map.insert(key, curr);
                    proof {
                        let ghost before = s;
                        s = s.discover(direction_at(k as int));
                        unseen = unseen.remove(n);
                        assert forall|c: (int, int)|
                            grid_cells(grid_size as int).contains(c) && !s.order.contains(
                                c,
                            ) implies #[trigger] unseen.contains(c) by {
                            if before.order.contains(c) {
                                let j = choose|j: int|
                                    0 <= j < before.order.len() && before.order[j] == c;
                                assert(s.order[j] == c);
                            }
                            assert(s.order[before.order.len() as int] == n);
                        }
                        assert forall|j: int| 0 <= j < s.done implies #[trigger] s.order[j]
                            != goal by {
                            assert(s.order[j] == before.order[j]);
                        }
                    }
                } else {
                    proof {
                        if board.passable(n) {
                            let j = choose|j: int|
                                0 <= j < s.order.len() && #[trigger] key_at(s, j) == spec_cell_key(
                                    n,
                                );
                            lemma_cell_key_injective(s.order[j], n);
                        }
                        lemma_skip(s, board, origin, k as int);
                    }
                }
                proof {
                    if k < 3 {
                        lemma_next_direction(s, k as int);
                    }
                }
                k += 1;
            }
            proof {
                lemma_advance(s, board, origin);
                lemma_mirrors_advance(s, visited@, queue@, parent_map@);
                s = s.advance();
            }
        }
    }

    /// The heading of the move from `start` to `next`.
    pub fn get_direction_from_move(&self, start: (i32, i32), next: (i32, i32)) -> (d: Direction)
        ensures
            d == direction_of_move(start, next),
    {
        let dx: i64 = next.0 as i64 - start.0 as i64;
        let dy: i64 = next.1 as i64 - start.1 as i64;
        if dx == 1 && dy == 0 {
            Direction::Right
        } else if dx == -1 && dy == 0 {
            Direction::Left
        } else if dx == 0 && dy == -1 {
            Direction::Down
        } else {
            Direction::Up
        }
    }

    /// The position of the food nearest to the snake's head.
    pub fn find_closest_food(&self, snake: &Snake, foods: &[Food]) -> (target: Option<(i32, i32)>)
        requires
            snake@.len() >= 1,
        ensures
            target == nearest_food(snake@[0], foods@),
            target is Some <==> foods@.len() > 0,
    {
        if foods.len() == 0 {
            return None;
        }
        let head = snake.get_head_position();
        let mut best: usize = 0;
        let mut best_distance: i64 = manhattan_distance(head, foods[0].position);
        let mut i: usize = 1;
        while i < foods.len()
            invariant
                1 <= i <= foods.len(),
                best < i,
                best_distance == manhattan(head, foods@[best as int].position),
                forall|j: int|
                    0 <= j < i ==> best_distance <= manhattan(head, #[trigger] foods@[j].position),
                forall|j: int|
                    0 <= j < best ==> best_distance < manhattan(
                        head,
                        #[trigger] foods@[j].position,
                    ),
            decreases foods.len() - i,
        {
            let distance = manhattan_distance(head, foods[i].position);
            if distance < best_distance {
                best = i;
                best_distance = distance;
            }
            i += 1;
        }
        proof {
            assert(is_nearest(head, foods@, best as int));
            let chosen = choose|i: int| is_nearest(head, foods@, i);
            assert(is_nearest(head, foods@, chosen));
            if chosen < best {
                assert(manhattan(head, foods@[best as int].position) < manhattan(
                    head,
                    foods@[chosen].position,
                ));
            } else if best < chosen {
                assert(manhattan(head, foods@[chosen].position) < manhattan(
                    head,
                    foods@[best as int].position,
                ));
            }
        }
        Some(foods[best].position)
    }
}

impl AiController for GreedyBfsAi {
    /// The heading toward the nearest food: the first move of a shortest
    /// route from the head over cells that the snake may enter, and among
    /// several such moves the first in the order right, left, up, down. `None`
    /// without food, with the nearest food under the head, or with no route
    /// to it. The result is a function of the arguments alone.
    fn get_direction(
        &self,
        snake: &Snake,
        foods: &[Food],
        obstacles: &[Obstacle],
        grid_size: i32,
    ) -> (direction: Option<Direction>)
        ensures
            direction == chosen_direction(snake@, foods@, obstacles@, grid_size as int),
            direction is Some <==> foods@.len() > 0 && nearest_food(snake@[0], foods@)
                != Some(snake@[0]) && exists|route: Seq<Direction>|
                reaches(
                    board_of(snake@, obstacles@, grid_size as int),
                    cell_of(snake@[0]),
                    cell_of(nearest_food(snake@[0], foods@).unwrap()),
                    route,
                ),
    {
        if let Some(target_position) = self.find_closest_food(snake, foods) {
            let snake_head = snake.get_head_position();
            let path = self.bfs(snake, obstacles, grid_size, snake_head, target_position);
            if let Some(next_step) = path {
                proof {
                    lemma_first_step_passable(
                        board_of(snake@, obstacles@, grid_size as int),
                        cell_of(snake_head),
                        cell_of(target_position),
                    );
                }
                return Some(self.get_direction_from_move(snake_head, next_step));
            }
        }
        None
    }
}

} // verus!
