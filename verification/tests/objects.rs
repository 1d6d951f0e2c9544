use snake_game::colors::{obstacle_color, palette_color, Rgba, PALETTE_SIZE};
use snake_game::grid::{manhattan_distance, same_cell, step_wrapped, wrap};
use snake_game::models::{ConfigError, Difficulty, Direction, GameOptions, Vertex};
use snake_game::objects::obstacle::any_occupies;
use snake_game::objects::{Food, Obstacle, Snake};
use snake_game::placement::{
    contains_position, first_placeable, get_free_position, is_occupied, is_placeable,
};
use snake_game::randomizer::{OsRandomizer, Randomizer};
use snake_game::utils::{create_key_direction_map, direction_for_key, lookup_key, same_text};

fn grey() -> Rgba {
    Rgba { r: 10, g: 20, b: 30, a: 40 }
}

fn snake_of(length: usize, grid_size: i32) -> Snake {
    let mut snake = Snake::new();
    snake.initialize(length, grid_size);
    snake
}

fn body(snake: &Snake) -> Vec<(i32, i32)> {
    (0..snake.len()).map(|i| snake.segment(i)).collect()
}

#[test]
fn snake_starts_in_its_row() {
    let snake = Snake::new();
    assert_eq!(snake.len(), 0);
    let snake = snake_of(5, 20);
    assert_eq!(body(&snake), vec![(10, 10), (9, 10), (8, 10), (7, 10), (6, 10)]);
    assert_eq!(snake.get_head_position(), (10, 10));
    assert!(!snake.is_self_collision());
    assert_eq!(body(&snake_of(5, 11)), vec![(10, 10), (9, 10), (8, 10), (7, 10), (6, 10)]);
    // On a smaller grid the row wraps.
    assert_eq!(body(&snake_of(5, 10)), vec![(0, 0), (9, 0), (8, 0), (7, 0), (6, 0)]);
    assert_eq!(body(&snake_of(4, 7)), vec![(3, 3), (2, 3), (1, 3), (0, 3)]);
    assert_eq!(body(&snake_of(5, 3)), vec![(1, 1), (0, 1), (2, 1), (1, 1), (0, 1)]);
    assert_eq!(body(&snake_of(3, 1)), vec![(0, 0), (0, 0), (0, 0)]);
    assert_eq!(snake.grid_size(), 20);
    assert_eq!(snake.body_length(), 5);
}

#[test]
fn snake_moves_by_shifting() {
    let mut snake = snake_of(3, 20);
    snake.move_to((4, 4));
    assert_eq!(body(&snake), vec![(4, 4), (10, 10), (9, 10)]);
    snake.move_to((4, 5));
    assert_eq!(body(&snake), vec![(4, 5), (4, 4), (10, 10)]);
    assert!(snake.head_overlaps((4, 5)));
    assert!(!snake.head_overlaps((4, 4)));
    assert!(snake.occupies((4, 4)));
    assert!(snake.will_collide((10, 10)));
    assert!(!snake.occupies((9, 10)));
    assert!(!snake.will_collide((0, 0)));
}

#[test]
fn snake_traverses_the_torus() {
    let mut snake = snake_of(3, 10);
    snake.traverse(Direction::Right);
    assert_eq!(body(&snake), vec![(1, 0), (0, 0), (9, 0)]);
    snake.traverse(Direction::Down);
    assert_eq!(body(&snake), vec![(1, 9), (1, 0), (0, 0)]);
    snake.traverse(Direction::Left);
    snake.traverse(Direction::Left);
    assert_eq!(body(&snake), vec![(9, 9), (0, 9), (1, 9)]);
    snake.traverse(Direction::Up);
    assert_eq!(snake.get_head_position(), (9, 0));
    snake.resize(4);
    snake.traverse(Direction::Up);
    assert_eq!(snake.get_head_position(), (1, 1));
}

#[test]
fn snake_grows_in_line_with_its_tail() {
    let mut snake = snake_of(2, 20);
    snake.grow();
    assert_eq!(body(&snake), vec![(10, 10), (9, 10), (8, 10)]);
    let mut bent = snake_of(2, 20);
    bent.move_to((10, 11));
    bent.grow();
    assert_eq!(body(&bent), vec![(10, 11), (10, 10), (10, 9)]);
    // Growth wraps: behind a tail that came over the edge lies the cell it
    // came from.
    let mut edge = snake_of(2, 10);
    edge.move_to((1, 5));
    edge.move_to((0, 5));
    edge.move_to((9, 5));
    assert_eq!(body(&edge), vec![(9, 5), (0, 5)]);
    edge.grow();
    assert_eq!(edge.segment(2), (1, 5));
    let mut low = snake_of(2, 5);
    low.move_to((4, 0));
    low.move_to((0, 0));
    low.move_to((1, 0));
    low.grow();
    assert_eq!(body(&low), vec![(1, 0), (0, 0), (4, 0)]);
}

#[test]
fn snake_detects_its_own_body() {
    let mut snake = snake_of(5, 10);
    snake.move_to((1, 1));
    snake.move_to((1, 2));
    snake.move_to((2, 2));
    snake.move_to((2, 1));
    assert!(!snake.is_self_collision());
    snake.move_to((1, 1));
    assert!(snake.is_self_collision());
}

#[test]
fn snake_reset_restores_length_and_place() {
    let mut snake = snake_of(4, 20);
    snake.grow();
    snake.move_to((3, 3));
    snake.set_color(grey());
    snake.reset();
    assert_eq!(body(&snake), vec![(10, 10), (9, 10), (8, 10), (7, 10)]);
    assert_eq!(snake.as_vertices()[0].color, grey());
}

#[test]
fn snake_tile_formula() {
    let mut snake = snake_of(1, 10);
    snake.set_color(grey());
    snake.move_to((3, 7));
    let v = |x: i64, y: i64| Vertex { x, y, color: grey() };
    // One unit is 1/10000 of the half-width: x1 = -1 + 3 * 0.2 + 0.01.
    let (x1, y1) = (-3900, 4100);
    let (x2, y2) = (x1 + 1900, y1 + 1860);
    assert_eq!(
        snake.as_vertices(),
        vec![v(x1, y1), v(x2, y1), v(x1, y2), v(x1, y2), v(x2, y1), v(x2, y2)]
    );
}

#[test]
fn food_tile_formula() {
    let food = Food::new(grey(), (0, 4), 4);
    assert_eq!(food.position, (0, 4));
    let v = |x: i64, y: i64| Vertex { x, y, color: grey() };
    let (x1, y1) = (-3960, 4040);
    let (x2, y2) = (x1 + 1960, y1 + 1960);
    assert_eq!(
        food.as_vertices(),
        vec![v(x1, y1), v(x2, y1), v(x1, y2), v(x1, y2), v(x2, y1), v(x2, y2)]
    );
}

#[test]
fn obstacle_covers_two_by_two() {
    let obstacle = Obstacle::new(grey(), (3, 4), 10);
    for (cell, covered) in [
        ((3, 4), true),
        ((4, 4), true),
        ((3, 5), true),
        ((4, 5), true),
        ((2, 4), false),
        ((5, 4), false),
        ((3, 3), false),
        ((3, 6), false),
        ((5, 6), false),
    ] {
        assert_eq!(obstacle.occupies(cell), covered);
    }
    let far = Obstacle::new(grey(), (i32::MAX, i32::MAX), 10);
    assert!(far.occupies((i32::MAX, i32::MAX)));
    assert!(!far.occupies((i32::MIN, i32::MIN)));
    assert!(any_occupies(&[far, obstacle], (4, 5)));
    assert!(!any_occupies(&[], (4, 5)));
}

#[test]
fn obstacle_tiles_column_by_column() {
    let obstacle = Obstacle::new(grey(), (1, 2), 10);
    let vertices = obstacle.as_vertices();
    assert_eq!(vertices.len(), 24);
    let mut expected = Vec::new();
    for cell in [(1, 2), (1, 3), (2, 2), (2, 3)] {
        expected.extend(Food::new(grey(), cell, 10).as_vertices());
    }
    assert_eq!(vertices, expected);
}

#[test]
fn wrapping_is_a_true_remainder() {
    assert_eq!(wrap(10, 10), 0);
    assert_eq!(wrap(-1, 10), 9);
    assert_eq!(wrap(-10, 10), 0);
    assert_eq!(wrap(-11, 10), 9);
    assert_eq!(wrap(23, 10), 3);
    assert_eq!(wrap(i32::MIN as i64 - 1, 7), 4);
    assert_eq!(wrap(3 * (i32::MAX as i64), 10), 1);
    assert_eq!(wrap(-3 * (i32::MAX as i64), 10), 9);
    assert_eq!(wrap(i32::MAX as i64 + 1, 1), 0);
    assert_eq!(step_wrapped((0, 0), Direction::Left, 5), (4, 0));
    assert_eq!(step_wrapped((0, 0), Direction::Down, 5), (0, 4));
    assert_eq!(step_wrapped((4, 4), Direction::Right, 5), (0, 4));
    assert_eq!(step_wrapped((4, 4), Direction::Up, 5), (4, 0));
    assert_eq!(step_wrapped((-25, 12), Direction::Left, 10), (4, 2));
}

#[test]
fn manhattan_distances() {
    assert_eq!(manhattan_distance((5, 5), (7, 5)), 2);
    assert_eq!(manhattan_distance((5, 5), (2, 9)), 7);
    assert_eq!(manhattan_distance((1, 1), (1, 1)), 0);
    assert_eq!(
        manhattan_distance((i32::MIN, i32::MIN), (i32::MAX, i32::MAX)),
        2 * (u32::MAX as i64)
    );
    assert!(same_cell((1, 2), (1, 2)));
    assert!(!same_cell((1, 2), (2, 1)));
}

#[test]
fn directions_have_opposites() {
    assert_eq!(Direction::Up.opposite(), Direction::Down);
    assert_eq!(Direction::Down.opposite(), Direction::Up);
    assert_eq!(Direction::Left.opposite(), Direction::Right);
    assert_eq!(Direction::Right.opposite(), Direction::Left);
}

#[test]
fn palette_and_obstacle_colours() {
    assert_eq!(PALETTE_SIZE, 8);
    assert_eq!(palette_color(0), Rgba { r: 255, g: 0, b: 0, a: 255 });
    assert_eq!(palette_color(4), Rgba { r: 255, g: 165, b: 0, a: 255 });
    assert_eq!(palette_color(5), Rgba { r: 128, g: 0, b: 128, a: 255 });
    assert_eq!(palette_color(7), Rgba { r: 255, g: 191, b: 204, a: 255 });
    assert_eq!(palette_color(8), palette_color(7));
    assert_eq!(obstacle_color(), Rgba { r: 179, g: 179, b: 179, a: 255 });
}

fn options(grid_size: i32, color: &str) -> GameOptions {
    GameOptions {
        id: "canvas".into(),
        snake_color: color.to_string(),
        difficulty: Difficulty::Hard,
        grid_size,
        food_count: 3,
        fps: 30,
        frame_threshold_ms: 33,
    }
}

#[test]
fn options_are_validated() {
    assert_eq!(options(10, "#00FF00").validate(), Ok(Rgba { r: 0, g: 255, b: 0, a: 255 }));
    assert_eq!(options(1, "red").validate(), Ok(Rgba { r: 255, g: 0, b: 0, a: 255 }));
    assert_eq!(
        options(i32::MAX, "rgba(0, 0, 255, 0.0)").validate(),
        Ok(Rgba { r: 0, g: 0, b: 255, a: 0 })
    );
    assert_eq!(options(0, "#00FF00").validate(), Err(ConfigError::InvalidGridSize));
    assert_eq!(options(-3, "#00FF00").validate(), Err(ConfigError::InvalidGridSize));
    assert_eq!(options(i32::MIN, "#00FF00").validate(), Err(ConfigError::InvalidGridSize));
    assert_eq!(options(10, "").validate(), Err(ConfigError::InvalidColor));
    assert_eq!(options(10, "#00FF0").validate(), Err(ConfigError::InvalidColor));
    assert_eq!(options(0, "").validate(), Err(ConfigError::InvalidGridSize));
}

#[test]
fn options_copy_and_default() {
    let first = options(12, "blue");
    let copy = first.duplicate();
    assert_eq!(copy.id, "canvas");
    assert_eq!(copy.snake_color, "blue");
    assert_eq!(copy.difficulty, Difficulty::Hard);
    assert_eq!(copy.grid_size, 12);
    assert_eq!(copy.food_count, 3);
    assert_eq!(copy.fps, 30);
    assert_eq!(copy.frame_threshold_ms, 33);
    let cloned = first.clone();
    assert_eq!(cloned.snake_color, "blue");
    let default = GameOptions::default();
    assert_eq!(default.id, "");
    assert_eq!(default.difficulty, Difficulty::Easy);
    assert_eq!(default.grid_size, 0);
    assert_eq!(Difficulty::default(), Difficulty::Easy);
}

#[test]
fn key_bindings() {
    for (key, direction) in [
        ("a", Some(Direction::Left)),
        ("arrowleft", Some(Direction::Left)),
        ("w", Some(Direction::Up)),
        ("arrowup", Some(Direction::Up)),
        ("s", Some(Direction::Down)),
        ("arrowdown", Some(Direction::Down)),
        ("d", Some(Direction::Right)),
        ("arrowright", Some(Direction::Right)),
        ("", None),
        ("A", None),
        ("ArrowLeft", None),
        ("aa", None),
        ("enter", None),
        (" ", None),
    ] {
        assert_eq!(direction_for_key(key), direction);
    }
    let map = create_key_direction_map();
    assert_eq!(map.len(), 8);
    assert_eq!(map[0], ("a".to_string(), Direction::Left));
    assert_eq!(map[7], ("arrowright".to_string(), Direction::Right));
    assert_eq!(lookup_key(&map, "arrowup"), Some(Direction::Up));
    assert_eq!(lookup_key(&map, "q"), None);
    let twice = vec![("k".to_string(), Direction::Up), ("k".to_string(), Direction::Down)];
    assert_eq!(lookup_key(&twice, "k"), Some(Direction::Up));
    assert!(same_text("héllo", "héllo"));
    assert!(!same_text("héllo", "hello"));
    assert!(!same_text("ab", "abc"));
    assert!(same_text("", ""));
}

#[test]
fn os_randomizer_stays_in_range() {
    let mut randomizer = OsRandomizer::new();
    let mut seen = [false; 9];
    for _ in 0..500 {
        let (x, y) = randomizer.get_random_position_on_grid(3);
        assert!((0..3).contains(&x) && (0..3).contains(&y));
        seen[(3 * y + x) as usize] = true;
    }
    assert!(seen.iter().all(|cell| *cell));
    assert_eq!(randomizer.get_random_position_on_grid(1), (0, 0));
    for _ in 0..100 {
        let color = randomizer.get_random_color();
        assert!((0..PALETTE_SIZE).any(|index| palette_color(index) == color));
    }
}

/// Counts its draws and always names the same cell.
struct Counting {
    cell: (i32, i32),
    draws: usize,
}

impl Randomizer for Counting {
    fn get_random_color(&mut self) -> Rgba {
        grey()
    }

    fn get_random_position_on_grid(&mut self, _grid_size: i32) -> (i32, i32) {
        self.draws += 1;
        self.cell
    }
}

#[test]
fn placement_checks() {
    let snake = snake_of(3, 12);
    let obstacles = vec![Obstacle::new(grey(), (2, 2), 12)];
    let foods = vec![(5, 5), (0, 1)];
    assert!(contains_position(&foods, (0, 1)));
    assert!(!contains_position(&foods, (1, 0)));
    assert!(is_occupied(&snake, &obstacles, &foods, (9, 10)));
    assert!(is_occupied(&snake, &obstacles, &foods, (3, 3)));
    assert!(is_occupied(&snake, &obstacles, &foods, (5, 5)));
    assert!(!is_occupied(&snake, &obstacles, &foods, (4, 4)));
    assert!(is_placeable(&snake, &obstacles, &foods, 12, (4, 4), false));
    assert!(!is_placeable(&snake, &obstacles, &foods, 12, (4, 4), true));
    assert!(is_placeable(&snake, &obstacles, &foods, 12, (6, 6), true));
    assert!(!is_placeable(&snake, &obstacles, &foods, 12, (1, 1), true));
    assert!(!is_placeable(&snake, &obstacles, &foods, 12, (12, 4), false));
    assert!(!is_placeable(&snake, &obstacles, &foods, 12, (4, -1), false));
    assert!(!is_placeable(&snake, &obstacles, &foods, 4, (4, 4), false));
    assert_eq!(first_placeable(&snake, &obstacles, &foods, 12, false), Some((0, 0)));
    assert_eq!(first_placeable(&snake, &obstacles, &foods, 12, true), Some((1, 0)));
    assert_eq!(first_placeable(&snake, &obstacles, &[(0, 1), (2, 1)], 12, true), Some((3, 0)));
    assert_eq!(first_placeable(&snake, &obstacles, &[(0, 0)], 1, false), None);
}

#[test]
fn placement_draws_then_searches() {
    let snake = snake_of(3, 12);
    let mut free = Counting { cell: (7, 7), draws: 0 };
    assert_eq!(get_free_position(&mut free, &snake, &[], &[], 12, false), Some((7, 7)));
    assert_eq!(free.draws, 1);

    let mut taken = Counting { cell: (10, 10), draws: 0 };
    assert_eq!(get_free_position(&mut taken, &snake, &[], &[], 12, false), Some((0, 0)));
    assert_eq!(taken.draws, 64);

    let mut none = Counting { cell: (0, 0), draws: 0 };
    assert_eq!(get_free_position(&mut none, &snake, &[], &[(0, 0)], 1, false), None);
    assert_eq!(get_free_position(&mut none, &snake, &[], &[], 1, false), Some((0, 0)));
}
