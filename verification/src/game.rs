use vstd::prelude::*;
use crate::colors::{obstacle_color, parse_css_color};
use crate::grid::{
    grown_tail,
    head_hits_body,
    in_grid,
    lemma_wrap_again,
    on_grid,
    shifted,
    step_wrapped,
    wrapped_step,
};
use crate::models::{ConfigError, Difficulty, Direction, GameOptions, GameResult, Vertex};
use crate::objects::obstacle::{any_occupies, block_covers, block_tiles, obstructed};
use crate::objects::snake::initial_body;
use crate::objects::{Food, Obstacle, Snake};
use crate::placement::{get_free_position, nothing_placeable, placeable, positions_of};
use crate::randomizer::Randomizer;
use crate::vertices::{tile, tiles, SNAKE_TRIM, TILE_TRIM};

verus! {

/// The number of segments a snake starts with.
pub const INITIAL_BODY_LENGTH: usize = 5;

/// The number of obstacles on a hard board.
pub const OBSTACLE_COUNT: usize = 2;

/// The simulation: a snake, food and obstacles on a square grid that wraps at
/// its edges.
pub struct Game<R: Randomizer> {
    pub options: GameOptions,
    pub direction: Direction,
    pub snake: Snake,
    pub foods: Vec<Food>,
    pub obstacles: Vec<Obstacle>,
    pub randomizer: R,
}

/// Food `i` is the first in the list that lies on `p`.
pub open spec fn is_first_food_at(foods: Seq<Food>, p: (i32, i32), i: int) -> bool {
    &&& 0 <= i < foods.len()
    &&& foods[i].position == p
    &&& forall|j: int| 0 <= j < i ==> (#[trigger] foods[j]).position != p
}

/// No food lies on `p`.
pub open spec fn no_food_at(foods: Seq<Food>, p: (i32, i32)) -> bool {
    forall|j: int| 0 <= j < foods.len() ==> (#[trigger] foods[j]).position != p
}

/// Every food lies on a grid cell of its own that neither the snake nor an
/// obstacle occupies, and is drawn on the grid of side `grid_size`.
pub open spec fn foods_well_placed(
    snake: Seq<(i32, i32)>,
    obstacles: Seq<Obstacle>,
    foods: Seq<Food>,
    grid_size: int,
) -> bool {
    &&& forall|i: int|
        0 <= i < foods.len() ==> {
            &&& in_grid((#[trigger] foods[i]).position, grid_size)
            &&& !snake.contains(foods[i].position)
            &&& !obstructed(obstacles, foods[i].position)
            &&& foods[i].grid_size == grid_size
        }
    &&& forall|i: int, j: int|
        0 <= i < j < foods.len() ==> (#[trigger] foods[i]).position != (#[trigger] foods[j]).position
}

/// Every obstacle is a grey block on the grid of side `grid_size` that covers
/// no segment of the snake and no food.
pub open spec fn obstacles_well_placed(
    snake: Seq<(i32, i32)>,
    obstacles: Seq<Obstacle>,
    foods: Seq<Food>,
    grid_size: int,
) -> bool {
    forall|i: int|
        0 <= i < obstacles.len() ==> {
            &&& placeable(
                snake,
                Seq::empty(),
                positions_of(foods),
                grid_size,
                (#[trigger] obstacles[i]).position,
                true,
            )
            &&& obstacles[i].grid_size == grid_size
            &&& obstacles[i].color == obstacle_color()
        }
}

/// The triangles of a list of foods, one tile each.
pub open spec fn food_tiles(foods: Seq<Food>) -> Seq<Vertex>
    decreases foods.len(),
{
    if foods.len() == 0 {
        Seq::empty()
    } else {
        food_tiles(foods.drop_last()) + tile(
            (foods.last().position.0 as int, foods.last().position.1 as int),
            foods.last().grid_size as int,
            TILE_TRIM as int,
            foods.last().color,
        )
    }
}

/// The triangles of a list of obstacles, four tiles each.
pub open spec fn obstacle_tiles(obstacles: Seq<Obstacle>) -> Seq<Vertex>
    decreases obstacles.len(),
{
    if obstacles.len() == 0 {
        Seq::empty()
    } else {
        obstacle_tiles(obstacles.drop_last()) + block_tiles(
            obstacles.last().position,
            obstacles.last().grid_size as int,
            obstacles.last().color,
        )
    }
}

/// Appends the elements of `more` to `vertices`.
fn extend(vertices: &mut Vec<Vertex>, more: &Vec<Vertex>)
    ensures
        final(vertices)@ == old(vertices)@ + more@,
{
    let ghost before = vertices@;
    let mut i: usize = 0;
    while i < more.len()
        invariant
            i <= more.len(),
            vertices@ == before + more@.take(i as int),
        decreases more.len() - i,
    {
        vertices.push(more[i]);
        assert(more@.take(i + 1) =~= more@.take(i as int).push(more@[i as int]));
        i += 1;
    }
    assert(more@.take(i as int) =~= more@);
}

impl<R: Randomizer> Game<R> {
    /// The game can be ticked: the grid has a cell, the snake lives on the
    /// game's grid and is at least as long as it started, which is at least
    /// the two segments that growth extrapolates from.
    pub open spec fn is_playable(&self) -> bool {
        &&& self.options.grid_is_valid()
        &&& self.snake.spec_grid_size() == self.options.grid_size
        &&& self.snake.spec_body_length() >= 2
        &&& self.snake@.len() >= self.snake.spec_body_length()
    }

    /// The head lies on another segment or under an obstacle.
    pub open spec fn spec_is_over(&self) -> bool {
        head_hits_body(self.snake@) || obstructed(self.obstacles@, self.snake@[0])
    }

    /// The triangles of the board: those of the snake, then of the foods, then
    /// of the obstacles.
    pub open spec fn spec_vertices(&self) -> Seq<Vertex> {
        tiles(
            self.snake@,
            self.snake.spec_grid_size(),
            SNAKE_TRIM as int,
            self.snake.spec_color(),
        ) + food_tiles(self.foods@) + obstacle_tiles(self.obstacles@)
    }

    /// The snake lies on the grid, and the foods were put down one after
    /// another on free cells until there were `food_count` of them or no cell
    /// was free.
    pub open spec fn board_is_placed(&self) -> bool {
        let grid = self.options.grid_size as int;
        &&& on_grid(self.snake@, grid)
        &&& self.foods@.len() <= self.options.food_count
        &&& foods_well_placed(self.snake@, self.obstacles@, self.foods@, grid)
        &&& self.foods@.len() < self.options.food_count ==> nothing_placeable(
            self.snake@,
            self.obstacles@,
            positions_of(self.foods@),
            grid,
            false,
        )
    }

    /// The obstacles were put down on blocks of cells that cover neither the
    /// snake nor a food, until there were `OBSTACLE_COUNT` of them or no block
    /// was free of the snake and the obstacles before it.
    pub open spec fn obstacles_are_placed(&self) -> bool {
        let grid = self.options.grid_size as int;
        &&& self.obstacles@.len() <= OBSTACLE_COUNT
        &&& obstacles_well_placed(self.snake@, self.obstacles@, self.foods@, grid)
        &&& self.obstacles@.len() < OBSTACLE_COUNT ==> nothing_placeable(
            self.snake@,
            self.obstacles@,
            Seq::empty(),
            grid,
            true,
        )
    }

    /// One tick leads from `self` to `after` and comes to `result`. The head
    /// moves one step in the present direction, wrapping at the grid's edges,
    /// and the body follows. If the head then lies on a food, the snake grows
    /// by one segment and the first such food is moved to a cell that the
    /// snake, the obstacles and the foods as they lay before the tick leave
    /// free; it stays under the head only where no cell is free. The tick is
    /// `Over` exactly if the head then lies on another segment or under an
    /// obstacle; else `Score` if a food was eaten, else `Noop`.
    pub open spec fn ticks_to(self, after: Self, result: GameResult) -> bool {
        let grid = self.options.grid_size as int;
        let head = wrapped_step(self.snake@[0], self.direction, grid);
        let moved = shifted(self.snake@, head);
        &&& after.options == self.options
        &&& after.direction == self.direction
        &&& after.obstacles == self.obstacles
        &&& after.snake.spec_body_length() == self.snake.spec_body_length()
        &&& after.snake.spec_grid_size() == self.snake.spec_grid_size()
        &&& after.snake.spec_color() == self.snake.spec_color()
        &&& after.foods@.len() == self.foods@.len()
        &&& result == GameResult::Over <==> after.spec_is_over()
        &&& no_food_at(self.foods@, head) ==> {
            &&& after.snake@ == moved
            &&& after.foods@ == self.foods@
            &&& result != GameResult::Score
        }
        &&& forall|i: int| #[trigger]
            is_first_food_at(self.foods@, head, i) ==> {
                &&& after.snake@ == moved.push(grown_tail(moved, grid))
                &&& result != GameResult::Noop
                &&& forall|j: int|
                    0 <= j < after.foods@.len() && j != i ==> #[trigger] after.foods@[j]
                        == self.foods@[j]
                &&& after.foods@[i].color == self.foods@[i].color
                &&& after.foods@[i].grid_size == self.foods@[i].grid_size
                &&& placeable(
                    after.snake@,
                    after.obstacles@,
                    positions_of(self.foods@),
                    grid,
                    after.foods@[i].position,
                    false,
                ) || (after.foods@[i].position == head && nothing_placeable(
                    after.snake@,
                    after.obstacles@,
                    positions_of(self.foods@),
                    grid,
                    false,
                ))
            }
    }

    /// A reset leads from `self` to `after`: the snake is back in its starting
    /// row at its starting length, the foods are put down anew, and the
    /// obstacles, the options and the heading are as they were.
    pub open spec fn resets_to(self, after: Self) -> bool {
        &&& after.options == self.options
        &&& after.direction == self.direction
        &&& after.obstacles == self.obstacles
        &&& after.snake@ == initial_body(
            self.snake.spec_body_length(),
            self.options.grid_size as int,
        )
        &&& after.snake.spec_body_length() == self.snake.spec_body_length()
        &&& after.snake.spec_grid_size() == self.options.grid_size
        &&& after.snake.spec_color() == self.snake.spec_color()
        &&& after.board_is_placed()
    }

    /// Setting the board up leads from `self` to `after`: the snake is in its
    /// starting row, `INITIAL_BODY_LENGTH` segments long and in the colour that
    /// the options name; the foods are put down anew; a hard board gets its
    /// obstacles anew, an easy one keeps what obstacles it had.
    pub open spec fn sets_up_to(self, after: Self) -> bool {
        &&& after.options == self.options
        &&& after.direction == self.direction
        &&& after.snake@ == initial_body(
            INITIAL_BODY_LENGTH as nat,
            self.options.grid_size as int,
        )
        &&& after.snake.spec_body_length() == INITIAL_BODY_LENGTH
        &&& after.snake.spec_grid_size() == self.options.grid_size
        &&& after.snake.spec_color() == self.options.snake_rgba()
        &&& after.board_is_placed()
        &&& self.options.difficulty == Difficulty::Hard ==> after.obstacles_are_placed()
        &&& self.options.difficulty == Difficulty::Easy ==> after.obstacles == self.obstacles
    }

    /// Taking up `options` leads from `self` to `after`: the snake is back in
    /// its starting row at its starting length, on the new grid and in the new
    /// colour; the foods are put down anew; the obstacles are put down anew if
    /// the difficulty changed to `Hard`, removed if it changed to `Easy`, and
    /// else as they were.
    pub open spec fn reconfigures_to(self, options: GameOptions, after: Self) -> bool {
        let changed = self.options.difficulty != options.difficulty;
        &&& after.options == options
        &&& after.direction == self.direction
        &&& after.snake@ == initial_body(self.snake.spec_body_length(), options.grid_size as int)
        &&& after.snake.spec_body_length() == self.snake.spec_body_length()
        &&& after.snake.spec_grid_size() == options.grid_size
        &&& after.snake.spec_color() == options.snake_rgba()
        &&& after.board_is_placed()
        &&& !changed ==> after.obstacles == self.obstacles
        &&& changed && options.difficulty == Difficulty::Easy ==> after.obstacles@.len() == 0
        &&& changed && options.difficulty == Difficulty::Hard ==> after.obstacles_are_placed()
    }

    /// A game that has yet to be set up by `initialize`: the snake has no
    /// segments and the board is empty.
    pub fn new(options: GameOptions, randomizer: R) -> (game: Self)
        ensures
            game.options == options,
            game.randomizer == randomizer,
            game.direction == Direction::Right,
            game.snake@.len() == 0,
            game.snake.spec_body_length() == 0,
            game.foods@.len() == 0,
            game.obstacles@.len() == 0,
    {
        Game {
            options,
            direction: Direction::Right,
            snake: Snake::new(),
            foods: Vec::new(),
            obstacles: Vec::new(),
            randomizer,
        }
    }

    /// Whether the game can be ticked.
    pub fn check_playable(&self) -> (playable: bool)
        ensures
            playable == self.is_playable(),
    {
        self.options.grid_size >= 1 && self.snake.grid_size() == self.options.grid_size
            && self.snake.body_length() >= 2 && self.snake.len() >= self.snake.body_length()
    }

    /// Whether the head lies on another segment or under an obstacle.
    pub fn is_over(&self) -> (over: bool)
        requires
            self.snake@.len() >= 1,
        ensures
            over == self.spec_is_over(),
    {
        self.snake.is_self_collision() || any_occupies(
            self.obstacles.as_slice(),
            self.snake.get_head_position(),
        )
    }

    /// Takes up `direction` unless it is the reverse of the present heading.
    pub fn change_direction(&mut self, direction: Direction)
        ensures
            final(self).direction == (if direction == old(self).direction.spec_opposite() {
                old(self).direction
            } else {
                direction
            }),
            final(self).options == old(self).options,
            final(self).snake == old(self).snake,
            final(self).foods == old(self).foods,
            final(self).obstacles == old(self).obstacles,
            final(self).randomizer == old(self).randomizer,
    {
        if direction != self.direction.opposite() {
            self.direction = direction;
        }
    }

    /// The cells that the foods lie on.
    fn food_positions(&self) -> (positions: Vec<(i32, i32)>)
        ensures
            positions@ == positions_of(self.foods@),
    {
        let mut positions: Vec<(i32, i32)> = Vec::new();
        let mut i: usize = 0;
        while i < self.foods.len()
            invariant
                i <= self.foods.len(),
                positions@ =~= positions_of(self.foods@.take(i as int)),
            decreases self.foods.len() - i,
        {
            positions.push(self.foods[i].position);
            i += 1;
        }
        assert(self.foods@.take(i as int) =~= self.foods@);
        positions
    }

    /// Moves the head one step in `direction`, wrapping at the grid's edges.
    fn update_snake_position(&mut self, direction: Direction)
        requires
            old(self).options.grid_size >= 1,
            old(self).snake@.len() >= 1,
        ensures
            final(self).snake@ == shifted(
                old(self).snake@,
                wrapped_step(old(self).snake@[0], direction, old(self).options.grid_size as int),
            ),
            in_grid(final(self).snake@[0], old(self).options.grid_size as int),
            final(self).snake.spec_body_length() == old(self).snake.spec_body_length(),
            final(self).snake.spec_grid_size() == old(self).snake.spec_grid_size(),
            final(self).snake.spec_color() == old(self).snake.spec_color(),
            final(self).options == old(self).options,
            final(self).direction == old(self).direction,
            final(self).foods == old(self).foods,
            final(self).obstacles == old(self).obstacles,
    {
        let grid_size = self.options.grid_size;
        let head = self.snake.get_head_position();
        let new_head = step_wrapped(head, direction, grid_size);
        self.snake.move_to(new_head);
    }

    /// One tick, as `ticks_to` describes it. The head is then on the grid and
    /// every other segment is where the one before it was; a snake that lay on
    /// the grid lies on the grid. Eating makes the snake one segment longer and
    /// moves the food to another cell unless no cell is free.
    pub fn update(&mut self) -> (result: GameResult)
        requires
            old(self).is_playable(),
        ensures
            final(self).is_playable(),
            (*old(self)).ticks_to(*final(self), result),
            ({
                let grid = old(self).options.grid_size as int;
                let head = wrapped_step(old(self).snake@[0], old(self).direction, grid);
                let old_body = old(self).snake@;
                let new_body = final(self).snake@;
                &&& in_grid(head, grid)
                &&& new_body[0] == head
                &&& forall|i: int|
                    1 <= i < old_body.len() ==> #[trigger] new_body[i] == old_body[i - 1]
                &&& on_grid(old_body, grid) ==> on_grid(new_body, grid)
                &&& obstructed(final(self).obstacles@, head) ==> result == GameResult::Over
                &&& head_hits_body(new_body) ==> result == GameResult::Over
                &&& new_body.len() == old_body.len() + (if no_food_at(old(self).foods@, head) {
                    0int
                } else {
                    1int
                })
                &&& forall|i: int| #[trigger]
                    is_first_food_at(old(self).foods@, head, i) ==> {
                        &&& in_grid(new_body[old_body.len() as int], grid)
                        &&& final(self).foods@[i].position != old(self).foods@[i].position
                            || nothing_placeable(
                            new_body,
                            final(self).obstacles@,
                            positions_of(old(self).foods@),
                            grid,
                            false,
                        )
                    }
            }),
    {
        let mut game_result = GameResult::Noop;
        let direction = self.direction;
        let ghost before = self.snake@;
        let ghost old_foods = self.foods@;
        let grid_size = self.options.grid_size;

        self.update_snake_position(direction);
        let ghost moved = self.snake@;
        let ghost head = moved[0];
        proof {
            lemma_shift_stays_on_grid(before, head, grid_size as int);
        }

        let food_positions = self.food_positions();

        let mut i: usize = 0;
        let mut eaten = false;
        while i < self.foods.len() && !eaten
            invariant
                i <= self.foods.len(),
                self.foods@ == old_foods,
                self.snake@ == moved,
                head == moved[0],
                moved.len() >= 1,
                forall|j: int| 0 <= j < i ==> (#[trigger] old_foods[j]).position != head,
                eaten ==> i < old_foods.len() && old_foods[i as int].position == head,
            decreases self.foods.len() - i + (if eaten { 0int } else { 1int }),
        {
            if self.snake.head_overlaps(self.foods[i].position) {
                eaten = true;
            } else {
                i += 1;
            }
        }

        if eaten {
            assert(is_first_food_at(old_foods, head, i as int));
            self.snake.grow();
            let found = get_free_position(
                &mut self.randomizer,
                &self.snake,
                self.obstacles.as_slice(),
                food_positions.as_slice(),
                grid_size,
                false,
            );
            match found {
                Some(position) => {
                    let color = self.foods[i].color;
                    let food_grid = self.foods[i].grid_size;
                    self.foods[i] = Food::new(color, position, food_grid);
                },
                None => {},
            }
            game_result = GameResult::Score;
            assert forall|k: int| #[trigger]
                is_first_food_at(old_foods, head, k) implies k == i by {
                if k < i {
                    assert(old_foods[k].position != head);
                } else if i < k {
                    assert(old_foods[i as int].position == head);
                }
            }
            assert(positions_of(old_foods)[i as int] == old_foods[i as int].position);
        } else {
            assert(no_food_at(old_foods, head));
            assert forall|k: int| !#[trigger] is_first_food_at(old_foods, head, k) by {
                if 0 <= k < old_foods.len() {
                    assert(old_foods[k].position != head);
                }
            }
        }

        if self.is_over() {
            game_result = GameResult::Over;
        }

        game_result
    }

    /// Puts down food until there are `food_count` foods or no cell is free.
    fn place_foods(&mut self)
        requires
            old(self).options.grid_size >= 1,
            foods_well_placed(
                old(self).snake@,
                old(self).obstacles@,
                old(self).foods@,
                old(self).options.grid_size as int,
            ),
        ensures
            final(self).options == old(self).options,
            final(self).direction == old(self).direction,
            final(self).snake == old(self).snake,
            final(self).obstacles == old(self).obstacles,
            foods_well_placed(
                final(self).snake@,
                final(self).obstacles@,
                final(self).foods@,
                final(self).options.grid_size as int,
            ),
            old(self).foods@.len() <= final(self).options.food_count ==> final(self).foods@.len()
                <= final(self).options.food_count,
            final(self).foods@.len() >= old(self).foods@.len(),
            final(self).foods@.take(old(self).foods@.len() as int) == old(self).foods@,
            final(self).foods@.len() < final(self).options.food_count ==> nothing_placeable(
                final(self).snake@,
                final(self).obstacles@,
                positions_of(final(self).foods@),
                final(self).options.grid_size as int,
                false,
            ),
    {
        let grid_size = self.options.grid_size;
        let count = self.options.food_count as usize;
        let mut positions = self.food_positions();
        let ghost first = self.foods@;
        while self.foods.len() < count
            invariant
                grid_size == self.options.grid_size,
                grid_size >= 1,
                count == self.options.food_count,
                first == old(self).foods@,
                self.options == old(self).options,
                self.direction == old(self).direction,
                self.snake == old(self).snake,
                self.obstacles == old(self).obstacles,
                positions@ == positions_of(self.foods@),
                self.foods@.len() >= first.len(),
                self.foods@.take(first.len() as int) == first,
                first.len() <= count ==> self.foods@.len() <= count,
                foods_well_placed(self.snake@, self.obstacles@, self.foods@, grid_size as int),
            decreases count - self.foods.len(),
        {
            let found = get_free_position(
                &mut self.randomizer,
                &self.snake,
                self.obstacles.as_slice(),
                positions.as_slice(),
                grid_size,
                false,
            );
            match found {
                Some(position) => {
                    let color = self.randomizer.get_random_color();
                    let ghost earlier = self.foods@;
                    self.foods.push(Food::new(color, position, grid_size));
                    positions.push(position);
                    proof {
                        assert(positions@ =~= positions_of(self.foods@));
                        assert(self.foods@.take(first.len() as int) =~= first);
                        assert forall|a: int, b: int| 0 <= a < b < self.foods@.len() implies (
                        #[trigger] self.foods@[a]).position != (#[trigger] self.foods@[b]).position by {
                            if b == earlier.len() {
                                assert(positions_of(earlier)[a] == earlier[a].position);
                            } else {
                                assert(earlier[a].position != earlier[b].position);
                            }
                        }
                    }
                },
                None => {
                    return ;
                },
            }
        }
    }

    /// Puts down obstacles until there are `count` or no block of cells is
    /// free.
    fn create_obstacles(&mut self, count: usize)
        requires
            old(self).options.grid_size >= 1,
            old(self).obstacles@.len() == 0,
        ensures
            final(self).options == old(self).options,
            final(self).direction == old(self).direction,
            final(self).snake == old(self).snake,
            final(self).foods == old(self).foods,
            final(self).obstacles@.len() <= count,
            obstacles_well_placed(
                final(self).snake@,
                final(self).obstacles@,
                final(self).foods@,
                final(self).options.grid_size as int,
            ),
            final(self).obstacles@.len() < count ==> nothing_placeable(
                final(self).snake@,
                final(self).obstacles@,
                positions_of(final(self).foods@),
                final(self).options.grid_size as int,
                true,
            ),
    {
        let grid_size = self.options.grid_size;
        let positions = self.food_positions();
        while self.obstacles.len() < count
            invariant
                grid_size == self.options.grid_size,
                grid_size >= 1,
                self.options == old(self).options,
                self.direction == old(self).direction,
                self.snake == old(self).snake,
                self.foods == old(self).foods,
                positions@ == positions_of(self.foods@),
                self.obstacles@.len() <= count,
                obstacles_well_placed(self.snake@, self.obstacles@, self.foods@, grid_size as int),
            decreases count - self.obstacles.len(),
        {
            let found = get_free_position(
                &mut self.randomizer,
                &self.snake,
                self.obstacles.as_slice(),
                positions.as_slice(),
                grid_size,
                true,
            );
            match found {
                Some(position) => {
                    let ghost earlier = self.obstacles@;
                    self.obstacles.push(Obstacle::new(obstacle_color(), position, grid_size));
                    proof {
                        assert forall|p: (i32, i32)| !obstructed(
                            Seq::<Obstacle>::empty(),
                            p,
                        ) by {}
                        assert forall|k: int| 0 <= k < self.obstacles@.len() implies placeable(
                            self.snake@,
                            Seq::empty(),
                            positions_of(self.foods@),
                            grid_size as int,
                            (#[trigger] self.obstacles@[k]).position,
                            true,
                        ) by {
                            if k < earlier.len() {
                                assert(self.obstacles@[k] == earlier[k]);
                            }
                        }
                    }
                },
                None => {
                    return ;
                },
            }
        }
    }

    /// Clears the foods, puts the obstacles down anew where `new_obstacles`
    /// says so, as many as a board of the present difficulty has, and puts the
    /// foods down.
    fn lay_out(&mut self, new_obstacles: bool)
        requires
            old(self).options.grid_size >= 1,
            on_grid(old(self).snake@, old(self).options.grid_size as int),
        ensures
            final(self).options == old(self).options,
            final(self).direction == old(self).direction,
            final(self).snake == old(self).snake,
            final(self).board_is_placed(),
            !new_obstacles ==> final(self).obstacles == old(self).obstacles,
            new_obstacles && final(self).options.difficulty == Difficulty::Easy ==> final(
                self
            ).obstacles@.len() == 0,
            new_obstacles && final(self).options.difficulty == Difficulty::Hard ==> final(
                self
            ).obstacles_are_placed(),
    {
        self.foods = Vec::new();
        assert(positions_of(self.foods@) =~= Seq::<(i32, i32)>::empty());
        if new_obstacles {
            self.obstacles = Vec::new();
            if self.options.difficulty == Difficulty::Hard {
                self.create_obstacles(OBSTACLE_COUNT);
            }
        }
        self.place_foods();
        proof {
            if new_obstacles && self.options.difficulty == Difficulty::Hard {
                lemma_blocks_clear_of_foods(
                    self.snake@,
                    self.obstacles@,
                    self.foods@,
                    self.options.grid_size as int,
                );
            }
        }
    }

    /// Sets the board up, as `sets_up_to` describes it.
    pub fn initialize(&mut self)
        requires
            old(self).options.is_valid(),
        ensures
            final(self).is_playable(),
            (*old(self)).sets_up_to(*final(self)),
    {
        let color = parse_css_color(self.options.snake_color.as_str()).unwrap();
        self.snake.initialize(INITIAL_BODY_LENGTH, self.options.grid_size);
        self.snake.set_color(color);
        self.lay_out(self.options.difficulty == Difficulty::Hard);
    }

    /// Starts over, as `resets_to` describes it.
    pub fn reset(&mut self)
        requires
            old(self).options.grid_is_valid(),
        ensures
            (*old(self)).resets_to(*final(self)),
            old(self).snake.spec_body_length() >= 2 ==> final(self).is_playable(),
    {
        self.snake.resize(self.options.grid_size);
        self.snake.reset();
        self.lay_out(false);
    }

    /// Takes up new options and starts over, as `reconfigures_to` describes
    /// it.
    pub fn apply_options_and_reset(&mut self, options: GameOptions)
        requires
            options.is_valid(),
        ensures
            (*old(self)).reconfigures_to(options, *final(self)),
            old(self).snake.spec_body_length() >= 2 ==> final(self).is_playable(),
    {
        let difficulty_changed = self.options.difficulty != options.difficulty;
        self.options = options;
        let color = parse_css_color(self.options.snake_color.as_str()).unwrap();
        self.snake.set_color(color);
        self.snake.resize(self.options.grid_size);
        self.snake.reset();
        self.lay_out(difficulty_changed);
    }

    /// The triangles to draw: those of the snake, then of the foods, then of
    /// the obstacles.
    pub fn get_vertices(&self) -> (vertices: Vec<Vertex>)
        ensures
            vertices@ == self.spec_vertices(),
    {
        let mut all_vertices: Vec<Vertex> = Vec::new();
        let snake_vertices = self.snake.as_vertices();
        extend(&mut all_vertices, &snake_vertices);
        let ghost snake_part = all_vertices@;
        assert(snake_part =~= snake_vertices@);

        let mut i: usize = 0;
        while i < self.foods.len()
            invariant
                i <= self.foods.len(),
                all_vertices@ == snake_part + food_tiles(self.foods@.take(i as int)),
            decreases self.foods.len() - i,
        {
            let food_vertices = self.foods[i].as_vertices();
            extend(&mut all_vertices, &food_vertices);
            proof {
                assert(self.foods@.take(i + 1).drop_last() =~= self.foods@.take(i as int));
                assert(all_vertices@ =~= snake_part + food_tiles(self.foods@.take(i + 1)));
            }
            i += 1;
        }
        assert(self.foods@.take(i as int) =~= self.foods@);
        let ghost food_part = all_vertices@;

        let mut j: usize = 0;
        while j < self.obstacles.len()
            invariant
                j <= self.obstacles.len(),
                all_vertices@ == food_part + obstacle_tiles(self.obstacles@.take(j as int)),
            decreases self.obstacles.len() - j,
        {
            let obstacle_vertices = self.obstacles[j].as_vertices();
            extend(&mut all_vertices, &obstacle_vertices);
            proof {
                assert(self.obstacles@.take(j + 1).drop_last() =~= self.obstacles@.take(j as int));
                assert(all_vertices@ =~= food_part + obstacle_tiles(self.obstacles@.take(j + 1)));
            }
            j += 1;
        }
        assert(self.obstacles@.take(j as int) =~= self.obstacles@);
        all_vertices
    }

    /// Checks `options` and, where they can be played with, makes a game of
    /// them and sets its board up: the game is what `initialize` makes of a
    /// new game with these options.
    pub fn setup(options: GameOptions, randomizer: R) -> (made: Result<Self, ConfigError>)
        ensures
            made is Ok <==> options.is_valid(),
            made matches Err(e) ==> (e == ConfigError::InvalidGridSize <==> !options.grid_is_valid()),
            made matches Ok(game) ==> {
                &&& game.is_playable()
                &&& game.options == options
                &&& game.direction == Direction::Right
                &&& game.snake@ == initial_body(INITIAL_BODY_LENGTH as nat, options.grid_size as int)
                &&& game.snake.spec_body_length() == INITIAL_BODY_LENGTH
                &&& game.snake.spec_grid_size() == options.grid_size
                &&& game.snake.spec_color() == options.snake_rgba()
                &&& game.board_is_placed()
                &&& options.difficulty == Difficulty::Hard ==> game.obstacles_are_placed()
                &&& options.difficulty == Difficulty::Easy ==> game.obstacles@.len() == 0
            },
    {
        match options.validate() {
            Ok(_) => {
                let mut game = Game::new(options, randomizer);
                game.initialize();
                Ok(game)
            },
            Err(e) => Err(e),
        }
    }

    /// Checks `options` and, where they can be played with, takes them up and
    /// starts over. Options that cannot be played with leave the game as it
    /// is.
    pub fn reconfigure(&mut self, options: GameOptions) -> (done: Result<(), ConfigError>)
        ensures
            done is Ok <==> options.is_valid(),
            done matches Err(e) ==> {
                &&& e == ConfigError::InvalidGridSize <==> !options.grid_is_valid()
                &&& *final(self) == *old(self)
            },
            done is Ok ==> {
                &&& (*old(self)).reconfigures_to(options, *final(self))
                &&& old(self).snake.spec_body_length() >= 2 ==> final(self).is_playable()
            },
    {
        match options.validate() {
            Ok(_) => {
                self.apply_options_and_reset(options);
                Ok(())
            },
            Err(e) => Err(e),
        }
    }
}

/// A tick keeps the snake on the grid: the head is put on the grid, and every
/// other segment takes the place of one that was on the grid.
pub proof fn lemma_shift_stays_on_grid(body: Seq<(i32, i32)>, head: (i32, i32), grid_size: int)
    requires
        body.len() >= 1,
        in_grid(head, grid_size),
    ensures
        shifted(body, head).len() == body.len(),
        shifted(body, head)[0] == head,
        forall|i: int| 1 <= i < body.len() ==> #[trigger] shifted(body, head)[i] == body[i - 1],
        on_grid(body, grid_size) ==> on_grid(shifted(body, head), grid_size),
{
    if on_grid(body, grid_size) {
        assert forall|i: int| 0 <= i < body.len() implies in_grid(
            #[trigger] shifted(body, head)[i],
            grid_size,
        ) by {
            if i > 0 {
                assert(shifted(body, head)[i] == body[i - 1]);
            }
        }
    }
}

/// Where a food lies on `p`, one is the first to do so.
pub proof fn lemma_first_food_exists(foods: Seq<Food>, p: (i32, i32), n: int)
    requires
        0 <= n <= foods.len(),
        exists|j: int| 0 <= j < n && (#[trigger] foods[j]).position == p,
    ensures
        exists|i: int| #[trigger] is_first_food_at(foods, p, i),
    decreases n,
{
    let j = choose|j: int| 0 <= j < n && (#[trigger] foods[j]).position == p;
    if exists|k: int| 0 <= k < j && (#[trigger] foods[k]).position == p {
        lemma_first_food_exists(foods, p, j);
    } else {
        assert(is_first_food_at(foods, p, j));
    }
}

/// What a tick does to the snake. The head is put on the grid, one wrapping
/// step on in the heading, and every other segment is where the one before it
/// was. The snake is one segment longer if a food lay where the head went,
/// and as long as it was if none did. A snake that lay on the grid lies on
/// the grid. A head under an obstacle or on another segment ends the game. A
/// game that could be ticked can be ticked again.
pub proof fn lemma_tick<R: Randomizer>(before: Game<R>, after: Game<R>, result: GameResult)
    requires
        before.options.grid_is_valid(),
        before.snake@.len() >= 1,
        before.ticks_to(after, result),
    ensures
        ({
            let grid = before.options.grid_size as int;
            let head = wrapped_step(before.snake@[0], before.direction, grid);
            &&& in_grid(head, grid)
            &&& after.snake@[0] == head
            &&& forall|i: int|
                1 <= i < before.snake@.len() ==> #[trigger] after.snake@[i] == before.snake@[i - 1]
            &&& after.snake@.len() == before.snake@.len() + (if no_food_at(before.foods@, head) {
                0int
            } else {
                1int
            })
            &&& on_grid(before.snake@, grid) ==> on_grid(after.snake@, grid)
            &&& obstructed(after.obstacles@, head) ==> result == GameResult::Over
            &&& head_hits_body(after.snake@) ==> result == GameResult::Over
            &&& before.is_playable() ==> after.is_playable()
        }),
{
    let grid = before.options.grid_size as int;
    let head = wrapped_step(before.snake@[0], before.direction, grid);
    let moved = shifted(before.snake@, head);
    lemma_wrap_again(before.snake@[0].0 + crate::grid::delta(before.direction).0, 0, grid);
    lemma_wrap_again(before.snake@[0].1 + crate::grid::delta(before.direction).1, 0, grid);
    lemma_shift_stays_on_grid(before.snake@, head, grid);
    if !no_food_at(before.foods@, head) {
        lemma_first_food_exists(before.foods@, head, before.foods@.len() as int);
        let i = choose|i: int| #[trigger] is_first_food_at(before.foods@, head, i);
        let tail = grown_tail(moved, grid);
        lemma_wrap_again(crate::grid::extrapolated(moved).0, 0, grid);
        lemma_wrap_again(crate::grid::extrapolated(moved).1, 0, grid);
        assert(after.snake@ == moved.push(tail));
        assert(in_grid(tail, grid));
        if on_grid(before.snake@, grid) {
            assert forall|k: int| 0 <= k < after.snake@.len() implies in_grid(
                #[trigger] after.snake@[k],
                grid,
            ) by {
                if k < moved.len() {
                    assert(after.snake@[k] == moved[k]);
                }
            }
        }
        assert forall|k: int| 1 <= k < before.snake@.len() implies #[trigger] after.snake@[k]
            == before.snake@[k - 1] by {
            assert(after.snake@[k] == moved[k]);
        }
    }
}

/// Foods that lie under no obstacle lie under no block: obstacles that cover
/// no segment of the snake cover no food either.
pub proof fn lemma_blocks_clear_of_foods(
    snake: Seq<(i32, i32)>,
    obstacles: Seq<Obstacle>,
    foods: Seq<Food>,
    grid_size: int,
)
    requires
        grid_size <= i32::MAX,
        obstacles_well_placed(snake, obstacles, Seq::empty(), grid_size),
        foods_well_placed(snake, obstacles, foods, grid_size),
    ensures
        obstacles_well_placed(snake, obstacles, foods, grid_size),
{
    let positions = positions_of(foods);
    assert forall|k: int| 0 <= k < obstacles.len() implies placeable(
        snake,
        Seq::empty(),
        positions,
        grid_size,
        (#[trigger] obstacles[k]).position,
        true,
    ) by {
        let a = obstacles[k].position;
        assert(placeable(snake, Seq::empty(), positions_of(Seq::<Food>::empty()), grid_size, a, true));
        assert forall|c: (i32, i32)| block_covers(a, c) implies !positions.contains(c) by {
            if positions.contains(c) {
                let i = choose|i: int| 0 <= i < positions.len() && positions[i] == c;
                assert(foods[i].position == c);
                assert(block_covers(obstacles[k].position, foods[i].position));
                assert(obstructed(obstacles, foods[i].position));
            }
        }
        assert(block_covers(a, a));
        assert(block_covers(a, ((a.0 + 1) as i32, a.1)));
        assert(block_covers(a, (a.0, (a.1 + 1) as i32)));
        assert(block_covers(a, ((a.0 + 1) as i32, (a.1 + 1) as i32)));
        assert forall|c: (i32, i32)| !obstructed(Seq::<Obstacle>::empty(), c) by {}
    }
}

} // verus!
