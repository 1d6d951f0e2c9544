use snake_game::abstractions::{AiController, GreedyBfsAi};
use snake_game::colors::Rgba;
use snake_game::models::Direction;
use snake_game::objects::{Food, Obstacle, Snake};

fn snake_at(pos: (i32, i32)) -> Snake {
    let mut snake = Snake::new();
    snake.initialize(3, 20);
    snake.move_to(pos);
    snake
}

fn food_at(pos: (i32, i32)) -> Food {
    Food::new(Rgba { r: 255, g: 0, b: 0, a: 255 }, pos, 2)
}

fn obstacle_at(pos: (i32, i32)) -> Obstacle {
    Obstacle::new(Rgba { r: 128, g: 128, b: 128, a: 255 }, pos, 2)
}

#[test]
fn moves_toward_food() {
    let ai = GreedyBfsAi::new();
    let snake = snake_at((5, 5));
    let food = vec![food_at((7, 5))];
    let direction = ai.get_direction(&snake, &food, &[], 10);
    assert_eq!(direction, Some(Direction::Right));
}

#[test]
fn avoids_single_obstacle() {
    let ai = GreedyBfsAi::new();
    let snake = snake_at((5, 5));
    let food = vec![food_at((7, 5))];
    let obstacles = vec![obstacle_at((6, 5))];
    let direction = ai.get_direction(&snake, &food, &obstacles, 10);
    assert_ne!(direction, Some(Direction::Right));
}

#[test]
fn trapped_snake_returns_none() {
    let ai = GreedyBfsAi::new();
    let snake = snake_at((5, 5));
    let food = vec![food_at((6, 5))];
    let obstacles = vec![
        obstacle_at((6, 5)),
        obstacle_at((4, 5)),
        obstacle_at((5, 6)),
        obstacle_at((5, 4)),
    ];
    let direction = ai.get_direction(&snake, &food, &obstacles, 10);
    assert_eq!(direction, None);
}

#[test]
fn picks_available_direction() {
    let ai = GreedyBfsAi::new();
    let snake = snake_at((3, 3));
    let food = vec![food_at((0, 0))];
    let obstacles = vec![obstacle_at((2, 3))];
    let direction = ai.get_direction(&snake, &food, &obstacles, 5);
    assert!(direction == Some(Direction::Up) || direction == Some(Direction::Down));
}

#[test]
fn no_food_gives_no_direction() {
    let ai = GreedyBfsAi::new();
    let snake = snake_at((5, 5));
    assert_eq!(ai.get_direction(&snake, &[], &[], 10), None);
}

#[test]
fn food_under_the_head_gives_no_direction() {
    let ai = GreedyBfsAi::new();
    let snake = snake_at((5, 5));
    let food = vec![food_at((5, 5))];
    assert_eq!(ai.get_direction(&snake, &food, &[], 10), None);
}

#[test]
fn nearest_food_is_targeted_and_ties_go_to_the_first() {
    let ai = GreedyBfsAi::new();
    let snake = snake_at((5, 5));
    let far_then_near = vec![food_at((0, 5)), food_at((5, 7))];
    assert_eq!(ai.find_closest_food(&snake, &far_then_near), Some((5, 7)));
    let tied = vec![food_at((5, 3)), food_at((7, 5)), food_at((3, 5))];
    assert_eq!(ai.find_closest_food(&snake, &tied), Some((5, 3)));
    assert_eq!(ai.get_direction(&snake, &tied, &[], 10), Some(Direction::Down));
    assert_eq!(ai.find_closest_food(&snake, &[]), None);
}

#[test]
fn equally_short_routes_start_with_the_earlier_direction() {
    let ai = GreedyBfsAi::new();
    let snake = snake_at((5, 5));
    // Right then up and up then right are equally short; right is tried first.
    assert_eq!(ai.get_direction(&snake, &[food_at((6, 6))], &[], 10), Some(Direction::Right));
    // Left then down and down then left: left is tried before down.
    assert_eq!(ai.get_direction(&snake, &[food_at((4, 4))], &[], 10), Some(Direction::Left));
    // Up is tried before down, left before up.
    assert_eq!(ai.get_direction(&snake, &[food_at((4, 6))], &[], 10), Some(Direction::Left));
    assert_eq!(ai.get_direction(&snake, &[food_at((5, 8))], &[], 10), Some(Direction::Up));
}

#[test]
fn search_does_not_wrap_at_the_edge() {
    let ai = GreedyBfsAi::new();
    let snake = snake_at((0, 0));
    // On a torus the food would be one step to the left.
    assert_eq!(ai.get_direction(&snake, &[food_at((9, 0))], &[], 10), Some(Direction::Right));
}

#[test]
fn detour_round_own_body() {
    let ai = GreedyBfsAi::new();
    let mut snake = Snake::new();
    snake.initialize(3, 10);
    snake.move_to((4, 5));
    snake.move_to((5, 5));
    snake.move_to((5, 4));
    // Segments: (5,4), (5,5), (4,5). The food lies beyond the body.
    let direction = ai.get_direction(&snake, &[food_at((5, 6))], &[], 10);
    assert_eq!(direction, Some(Direction::Right));
}

#[test]
fn navigation_is_repeatable() {
    let ai = GreedyBfsAi::new();
    let snake = snake_at((2, 7));
    let food = vec![food_at((8, 1)), food_at((0, 0))];
    let obstacles = vec![obstacle_at((4, 4)), obstacle_at((3, 6))];
    let first = ai.get_direction(&snake, &food, &obstacles, 10);
    for _ in 0..5 {
        assert_eq!(ai.get_direction(&snake, &food, &obstacles, 10), first);
    }
    assert!(first.is_some());
}

#[test]
fn chosen_step_is_never_blocked() {
    let ai = GreedyBfsAi::new();
    let obstacles = vec![obstacle_at((6, 4)), obstacle_at((3, 5))];
    for x in 0..10 {
        for y in 0..10 {
            let snake = snake_at((5, 5));
            let food = vec![food_at((x, y))];
            if let Some(direction) = ai.get_direction(&snake, &food, &obstacles, 10) {
                let next = match direction {
                    Direction::Up => (5, 6),
                    Direction::Down => (5, 4),
                    Direction::Left => (4, 5),
                    Direction::Right => (6, 5),
                };
                assert!(!snake.will_collide(next));
                assert!(!obstacles.iter().any(|o| o.occupies(next)));
            }
        }
    }
}

#[test]
fn bfs_gives_the_next_cell() {
    let ai = GreedyBfsAi::new();
    let snake = snake_at((5, 5));
    assert_eq!(ai.bfs(&snake, &[], 10, (5, 5), (5, 9)), Some((5, 6)));
    assert_eq!(ai.bfs(&snake, &[], 10, (5, 5), (5, 5)), None);
    assert_eq!(ai.bfs(&snake, &[], 10, (5, 5), (12, 5)), None);
    assert_eq!(ai.bfs(&snake, &[], 0, (5, 5), (6, 5)), None);
}

#[test]
fn direction_from_move() {
    let ai = GreedyBfsAi::new();
    assert_eq!(ai.get_direction_from_move((3, 3), (4, 3)), Direction::Right);
    assert_eq!(ai.get_direction_from_move((3, 3), (2, 3)), Direction::Left);
    assert_eq!(ai.get_direction_from_move((3, 3), (3, 4)), Direction::Up);
    assert_eq!(ai.get_direction_from_move((3, 3), (3, 2)), Direction::Down);
    assert_eq!(ai.get_direction_from_move((3, 3), (9, 9)), Direction::Up);
    assert_eq!(ai.get_direction_from_move((i32::MIN, 0), (i32::MAX, 0)), Direction::Up);
}

#[test]
fn obstacle_lookup() {
    let ai = GreedyBfsAi::new();
    let obstacles = vec![obstacle_at((2, 3))];
    assert!(ai.is_obstacle((2, 3), &obstacles));
    assert!(ai.is_obstacle((3, 4), &obstacles));
    assert!(!ai.is_obstacle((4, 3), &obstacles));
    assert!(!ai.is_obstacle((1, 3), &obstacles));
    assert!(!ai.is_obstacle((2, 3), &[]));
}

#[test]
fn unobstructed_step_gets_closer() {
    let ai = GreedyBfsAi::new();
    let head = (5, 5);
    for x in 0..10 {
        for y in 0..10 {
            let mut snake = Snake::new();
            snake.initialize(1, 10);
            snake.move_to(head);
            if (x, y) == head {
                continue;
            }
            let direction = ai.get_direction(&snake, &[food_at((x, y))], &[], 10).unwrap();
            let next = match direction {
                Direction::Up => (5, 6),
                Direction::Down => (5, 4),
                Direction::Left => (4, 5),
                Direction::Right => (6, 5),
            };
            let before = (x - head.0).abs() + (y - head.1).abs();
            let after = (x - next.0).abs() + (y - next.1).abs();
            assert_eq!(after, before - 1);
        }
    }
}
