use snake_game::abstractions::{AiController, GreedyBfsAi};
use snake_game::colors::Rgba;
use snake_game::game_orchestrator::{
    dispatch, make_payload, pace, FrameRequest, GameOrchestrator, Notice, Pacing,
};
use snake_game::models::{
    ConfigError, Difficulty, Direction, GameOptions, GameResult, GameState, Vertex,
};
use snake_game::objects::{Food, Obstacle, Snake};
use snake_game::randomizer::Randomizer;

/// Always the same colour and the same cell.
struct FixedRandomizer;

impl Randomizer for FixedRandomizer {
    fn get_random_color(&mut self) -> Rgba {
        Rgba { r: 255, g: 255, b: 255, a: 255 }
    }

    fn get_random_position_on_grid(&mut self, _grid_size: i32) -> (i32, i32) {
        (5, 5)
    }
}

/// Always the same answer.
struct FixedAi(Option<Direction>);

impl AiController for FixedAi {
    fn get_direction(
        &self,
        _snake: &Snake,
        _foods: &[Food],
        _obstacles: &[Obstacle],
        _grid_size: i32,
    ) -> Option<Direction> {
        self.0
    }
}

type TestGameOrchestrator = GameOrchestrator<FixedRandomizer, FixedAi>;

fn game_options() -> GameOptions {
    GameOptions {
        id: "".into(),
        fps: 10,
        frame_threshold_ms: 10,
        grid_size: 20,
        food_count: 1,
        difficulty: Difficulty::Easy,
        snake_color: "#00FF00".to_string(),
    }
}

fn setup_orchestrator(ai: Option<Direction>) -> TestGameOrchestrator {
    GameOrchestrator::new(game_options(), FixedRandomizer, FixedAi(ai))
}

#[test]
fn test_initialization() {
    let options = GameOptions::default();
    let orchestrator = GameOrchestrator::new(options, FixedRandomizer, FixedAi(None));

    assert_eq!(orchestrator.state, GameState::Idle);
}

#[test]
fn test_ai_moves_snake() {
    let mut orchestrator = setup_orchestrator(Some(Direction::Up));
    orchestrator.initialize();
    orchestrator.state = GameState::AiPlaying;

    orchestrator.on_game_loop();

    assert_ne!(orchestrator.game.direction, Direction::Right);
}

#[test]
fn should_reset_state() {
    let mut orchestrator = setup_orchestrator(None);
    orchestrator.play();
    orchestrator.stop();
    orchestrator.reset();
    assert_eq!(orchestrator.state, GameState::Paused);
}

#[test]
fn test_game_over_triggers_callback() {
    let mut orchestrator = setup_orchestrator(None);
    orchestrator.initialize();

    orchestrator.state = GameState::UserPlaying;

    orchestrator.on_game_loop();
    orchestrator.game.change_direction(Direction::Up);
    orchestrator.on_game_loop();
    orchestrator.game.change_direction(Direction::Left);
    orchestrator.on_game_loop();
    orchestrator.game.change_direction(Direction::Down);
    let last = orchestrator.on_game_loop();

    assert_eq!(orchestrator.state, GameState::GameOver);
    assert_eq!(last.result, GameResult::Over);
    assert_eq!(last.notice, Notice::GameOver);
}

#[test]
fn test_setup_key_bindings() {
    let mut orchestrator = setup_orchestrator(None);

    // Simulate key press event and check if direction changes
    orchestrator.game.change_direction(Direction::Up);
    assert_eq!(orchestrator.game.direction, Direction::Up);
}

#[test]
fn should_start_game_loop() {
    let mut orchestrator = setup_orchestrator(None);
    let request = orchestrator.start_game_loop(false);
    assert_eq!(request, FrameRequest::NextFrame);
    assert_eq!(orchestrator.state, GameState::UserPlaying);
    let request = orchestrator.start_game_loop(true);
    assert_eq!(request, FrameRequest::NextFrame);
    assert_eq!(orchestrator.state, GameState::AiPlaying);
}

#[test]
fn should_setup() {
    let made = GameOrchestrator::setup(game_options(), FixedRandomizer, FixedAi(None));
    assert!(made.is_ok());
    let orchestrator = made.ok().unwrap();
    assert_eq!(orchestrator.state, GameState::Idle);
    assert_eq!(orchestrator.game.snake.len(), 5);
    assert_eq!(orchestrator.game.foods.len(), 1);

    let mut options = game_options();
    options.grid_size = 0;
    let made = GameOrchestrator::setup(options, FixedRandomizer, FixedAi(None));
    assert_eq!(made.err(), Some(ConfigError::InvalidGridSize));

    let mut options = game_options();
    options.snake_color = "not a colour".to_string();
    let made = GameOrchestrator::setup(options, FixedRandomizer, FixedAi(None));
    assert_eq!(made.err(), Some(ConfigError::InvalidColor));
}

#[test]
fn keys_steer_only_while_a_player_plays() {
    let mut orchestrator = setup_orchestrator(None);
    orchestrator.initialize();
    orchestrator.on_key_down("w");
    assert_eq!(orchestrator.game.direction, Direction::Right);
    orchestrator.state = GameState::AiPlaying;
    orchestrator.on_key_down("w");
    assert_eq!(orchestrator.game.direction, Direction::Right);

    orchestrator.state = GameState::UserPlaying;
    orchestrator.on_key_down("w");
    assert_eq!(orchestrator.game.direction, Direction::Up);
    orchestrator.on_key_down("s");
    assert_eq!(orchestrator.game.direction, Direction::Up);
    orchestrator.on_key_down("arrowleft");
    assert_eq!(orchestrator.game.direction, Direction::Left);
    orchestrator.on_key_down("x");
    assert_eq!(orchestrator.game.direction, Direction::Left);
    orchestrator.on_key_down("arrowdown");
    assert_eq!(orchestrator.game.direction, Direction::Down);
    orchestrator.on_key_down("d");
    assert_eq!(orchestrator.game.direction, Direction::Right);
}

#[test]
fn ai_game_over_restarts_and_goes_on() {
    let mut orchestrator = setup_orchestrator(None);
    orchestrator.initialize();
    orchestrator.state = GameState::AiPlaying;
    orchestrator.game.obstacles.push(Obstacle::new(Rgba { r: 0, g: 0, b: 0, a: 255 }, (1, 0), 20));
    orchestrator.game.snake.move_to((0, 0));

    let outcome = orchestrator.on_game_loop();

    assert_eq!(outcome.result, GameResult::Over);
    assert_eq!(outcome.notice, Notice::Nothing);
    assert_eq!(orchestrator.state, GameState::AiPlaying);
    assert_eq!(orchestrator.game.snake.get_head_position(), (10, 10));
    assert_eq!(orchestrator.game.snake.len(), 5);
    // What is drawn is the board at the moment of the collision.
    assert_eq!(outcome.payload.data[0].color, Rgba { r: 0, g: 255, b: 0, a: 255 });
    assert_eq!(outcome.payload.data.len(), 6 * 5 + 6 + 24);
    assert_eq!(outcome.payload.data[0].x, 2000 - 990 * 20);
}

#[test]
fn scores_are_reported_for_players_only() {
    let mut orchestrator = setup_orchestrator(None);
    orchestrator.initialize();
    orchestrator.state = GameState::UserPlaying;
    orchestrator.game.snake.move_to((4, 5));
    let outcome = orchestrator.on_game_loop();
    assert_eq!(outcome.result, GameResult::Score);
    assert_eq!(outcome.notice, Notice::Score);
    assert_eq!(orchestrator.state, GameState::UserPlaying);

    let mut orchestrator = setup_orchestrator(None);
    orchestrator.initialize();
    orchestrator.state = GameState::AiPlaying;
    orchestrator.game.snake.move_to((4, 5));
    let outcome = orchestrator.on_game_loop();
    assert_eq!(outcome.result, GameResult::Score);
    assert_eq!(outcome.notice, Notice::Nothing);
    assert_eq!(orchestrator.state, GameState::AiPlaying);
}

#[test]
fn dispatch_table() {
    let states = [
        GameState::Idle,
        GameState::AiPlaying,
        GameState::UserPlaying,
        GameState::Paused,
        GameState::GameOver,
    ];
    for state in states {
        assert_eq!(dispatch(state, GameResult::Noop), (state, Notice::Nothing));
        let score = if state == GameState::UserPlaying { Notice::Score } else { Notice::Nothing };
        assert_eq!(dispatch(state, GameResult::Score), (state, score));
        if state == GameState::AiPlaying {
            assert_eq!(dispatch(state, GameResult::Over), (state, Notice::Nothing));
        } else {
            assert_eq!(
                dispatch(state, GameResult::Over),
                (GameState::GameOver, Notice::GameOver)
            );
        }
    }
}

#[test]
fn pacing_table() {
    assert_eq!(pace(GameState::Paused, 0, 1000, 10), Pacing::Skip);
    assert_eq!(pace(GameState::GameOver, 0, 1000, 10), Pacing::Skip);
    assert_eq!(pace(GameState::UserPlaying, 100, 104, 10), Pacing::Wait(6));
    assert_eq!(pace(GameState::UserPlaying, 100, 109, 10), Pacing::Wait(1));
    assert_eq!(pace(GameState::UserPlaying, 100, 110, 10), Pacing::Step);
    assert_eq!(pace(GameState::AiPlaying, 100, 5000, 10), Pacing::Step);
    assert_eq!(pace(GameState::Idle, 0, 0, 0), Pacing::Step);
    // A clock that went back counts as no time passed.
    assert_eq!(pace(GameState::AiPlaying, 100, 40, 10), Pacing::Wait(10));
    assert_eq!(pace(GameState::AiPlaying, 100, 40, 0), Pacing::Step);
    assert_eq!(pace(GameState::AiPlaying, 0, u64::MAX, u64::MAX), Pacing::Step);
}

#[test]
fn ticks_are_throttled() {
    let mut orchestrator = setup_orchestrator(None);
    orchestrator.initialize();
    assert_eq!(orchestrator.start_game_loop(false), FrameRequest::NextFrame);

    let first = orchestrator.on_tick(1000);
    assert!(first.step.is_some());
    assert_eq!(first.request, FrameRequest::NextFrame);
    assert_eq!(orchestrator.last_timestamp, 1000);
    assert_eq!(orchestrator.game.snake.get_head_position(), (11, 10));

    let early = orchestrator.on_tick(1004);
    assert!(early.step.is_none());
    assert_eq!(early.request, FrameRequest::After(6));
    assert_eq!(orchestrator.last_timestamp, 1000);
    assert_eq!(orchestrator.game.snake.get_head_position(), (11, 10));

    let due = orchestrator.on_tick(1010);
    assert!(due.step.is_some());
    assert_eq!(due.request, FrameRequest::NextFrame);
    assert_eq!(orchestrator.last_timestamp, 1010);
    assert_eq!(orchestrator.game.snake.get_head_position(), (12, 10));
}

#[test]
fn paused_and_finished_loops_do_nothing() {
    let mut orchestrator = setup_orchestrator(None);
    orchestrator.initialize();
    orchestrator.start_game_loop(true);
    assert_eq!(orchestrator.frame_scheduled(7), None);
    assert_eq!(orchestrator.frame_scheduled(8), Some(7));
    assert_eq!(orchestrator.stop(), Some(8));
    assert_eq!(orchestrator.stop(), None);
    assert_eq!(orchestrator.state, GameState::Paused);

    let tick = orchestrator.on_tick(5000);
    assert!(tick.step.is_none());
    assert_eq!(tick.request, FrameRequest::Nothing);
    assert_eq!(orchestrator.game.snake.get_head_position(), (10, 10));
    assert_eq!(orchestrator.last_timestamp, 0);

    orchestrator.state = GameState::GameOver;
    let tick = orchestrator.on_tick(6000);
    assert!(tick.step.is_none());
    assert_eq!(tick.request, FrameRequest::Nothing);

    // A reset leaves the state as it is; starting the loop is the way on.
    orchestrator.game.snake.move_to((3, 3));
    orchestrator.reset();
    assert_eq!(orchestrator.state, GameState::GameOver);
    assert_eq!(orchestrator.game.snake.get_head_position(), (10, 10));
    assert_eq!(orchestrator.game.foods.len(), 1);
    orchestrator.start_game_loop(false);
    assert!(orchestrator.on_tick(7000).step.is_some());
}

#[test]
fn step_with_takes_the_choice_only_for_the_engine() {
    let mut orchestrator = setup_orchestrator(None);
    orchestrator.initialize();
    orchestrator.state = GameState::UserPlaying;
    orchestrator.step_with(Some(Direction::Down));
    assert_eq!(orchestrator.game.direction, Direction::Right);

    orchestrator.state = GameState::AiPlaying;
    orchestrator.step_with(Some(Direction::Left));
    assert_eq!(orchestrator.game.direction, Direction::Right);
    orchestrator.step_with(None);
    assert_eq!(orchestrator.game.direction, Direction::Right);
    orchestrator.step_with(Some(Direction::Down));
    assert_eq!(orchestrator.game.direction, Direction::Down);
    assert_eq!(orchestrator.game.snake.get_head_position(), (13, 9));
}

#[test]
fn the_engine_steers_the_snake_to_the_food() {
    let mut orchestrator = GameOrchestrator::new(game_options(), FixedRandomizer, GreedyBfsAi::new());
    orchestrator.initialize();
    orchestrator.start_game_loop(true);
    let mut scored = false;
    for tick in 0..40 {
        let outcome = orchestrator.on_tick(100 * (tick + 1));
        let step = outcome.step.unwrap();
        assert_ne!(step.result, GameResult::Over);
        if step.result == GameResult::Score {
            scored = true;
            break;
        }
    }
    assert!(scored);
}

#[test]
fn options_can_be_replaced() {
    let mut orchestrator = setup_orchestrator(None);
    orchestrator.initialize();
    orchestrator.state = GameState::UserPlaying;
    let mut options = game_options();
    options.difficulty = Difficulty::Hard;
    options.food_count = 2;
    orchestrator.apply_options_and_reset(options);
    assert_eq!(orchestrator.state, GameState::UserPlaying);
    assert_eq!(orchestrator.game.obstacles.len(), 2);
    assert_eq!(orchestrator.game.foods.len(), 2);

    let mut bad = game_options();
    bad.grid_size = -1;
    assert_eq!(orchestrator.reconfigure(bad), Err(ConfigError::InvalidGridSize));
    assert_eq!(orchestrator.game.obstacles.len(), 2);
    assert_eq!(orchestrator.reconfigure(game_options()), Ok(()));
    assert_eq!(orchestrator.game.obstacles.len(), 0);
}

#[test]
fn payload_counts() {
    let vertex = Vertex { x: 1, y: 2, color: Rgba { r: 0, g: 0, b: 0, a: 0 } };
    let payload = make_payload(vec![vertex; 12]);
    assert_eq!(payload.data.len(), 12);
    assert_eq!(payload.vertice_size, 12);
    assert_eq!(payload.length, 72);
    let empty = make_payload(Vec::new());
    assert_eq!(empty.vertice_size, 0);
    assert_eq!(empty.length, 0);
}
