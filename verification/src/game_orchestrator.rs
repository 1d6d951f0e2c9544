use vstd::prelude::*;
use crate::abstractions::AiController;
use crate::game::{Game, INITIAL_BODY_LENGTH};
use crate::models::{
    ConfigError,
    Difficulty,
    Direction,
    GameOptions,
    GameResult,
    GameState,
    Vertex,
    VerticePayload,
};
use crate::objects::snake::initial_body;
use crate::randomizer::Randomizer;
use crate::utils::{bound_direction, direction_for_key};

verus! {

/// What a frame scheduler hands out for a callback it was asked to run.
pub type ClosureHandle = i32;

/// What the loop asks of the frame scheduler after a tick.
#[derive(Debug, Copy, Clone, PartialEq, Eq, Structural)]
pub enum FrameRequest {
    /// Nothing: the loop has ended.
    Nothing,
    /// Run the tick again at the next frame.
    NextFrame,
    /// Run the tick again at the first frame after so many milliseconds.
    After(u64),
}

/// Whom to tell of what a step came to.
#[derive(Debug, Copy, Clone, PartialEq, Eq, Structural)]
pub enum Notice {
    Nothing,
    /// The player scored.
    Score,
    /// The player's game is over.
    GameOver,
}

/// What a tick does, given the time.
#[derive(Debug, Copy, Clone, PartialEq, Eq, Structural)]
pub enum Pacing {
    /// The loop is not running.
    Skip,
    /// It is too early for a step; so many milliseconds are missing.
    Wait(u64),
    /// A step is due.
    Step,
}

/// What one step of the simulation came to.
pub struct StepOutcome {
    /// What the tick came to.
    pub result: GameResult,
    /// What to draw: the board as the tick left it, before any reset.
    pub payload: VerticePayload,
    pub notice: Notice,
}

/// What a tick came to.
pub struct TickOutcome {
    /// The step, if one was due.
    pub step: Option<StepOutcome>,
    pub request: FrameRequest,
}

/// Whether a tick does anything in `state`.
pub open spec fn is_running(state: GameState) -> bool {
    state != GameState::GameOver && state != GameState::Paused
}

/// The state after a step that came to `result`: a player's game that is over
/// is over; a game that the engine plays goes on.
pub open spec fn spec_next_state(state: GameState, result: GameResult) -> GameState {
    if result == GameResult::Over && state != GameState::AiPlaying {
        GameState::GameOver
    } else {
        state
    }
}

/// Whom a step that came to `result` is reported to: a player's score and the
/// end of a player's game are reported, what happens while the engine plays
/// is not.
pub open spec fn spec_notice(state: GameState, result: GameResult) -> Notice {
    if result == GameResult::Score && state == GameState::UserPlaying {
        Notice::Score
    } else if result == GameResult::Over && state != GameState::AiPlaying {
        Notice::GameOver
    } else {
        Notice::Nothing
    }
}

/// Whether the board is set up anew after a step that came to `result`.
pub open spec fn restarts(state: GameState, result: GameResult) -> bool {
    result == GameResult::Over && state == GameState::AiPlaying
}

/// The time that has passed from `last` to `now`; none where the clock went
/// back.
pub open spec fn elapsed(last: u64, now: u64) -> int {
    if now >= last {
        now - last
    } else {
        0
    }
}

/// What a tick at time `now` does when the last step was at `last` and steps
/// are to be `threshold` milliseconds apart.
pub open spec fn spec_pacing(state: GameState, last: u64, now: u64, threshold: u64) -> Pacing {
    if !is_running(state) {
        Pacing::Skip
    } else if elapsed(last, now) < threshold {
        Pacing::Wait((threshold - elapsed(last, now)) as u64)
    } else {
        Pacing::Step
    }
}

/// The heading after the engine was asked: its choice, unless it made none or
/// chose the reverse of the present heading.
pub open spec fn steered(heading: Direction, choice: Option<Direction>) -> Direction {
    match choice {
        Some(d) => if d == heading.spec_opposite() {
            heading
        } else {
            d
        },
        None => heading,
    }
}

/// Computes `spec_next_state` and `spec_notice`.
pub fn dispatch(state: GameState, result: GameResult) -> (r: (GameState, Notice))
    ensures
        r.0 == spec_next_state(state, result),
        r.1 == spec_notice(state, result),
{
    match result {
        GameResult::Noop => (state, Notice::Nothing),
        GameResult::Score => {
            if state == GameState::UserPlaying {
                (state, Notice::Score)
            } else {
                (state, Notice::Nothing)
            }
        },
        GameResult::Over => {
            if state == GameState::AiPlaying {
                (state, Notice::Nothing)
            } else {
                (GameState::GameOver, Notice::GameOver)
            }
        },
    }
}

/// Computes `spec_pacing`.
pub fn pace(state: GameState, last: u64, now: u64, threshold: u64) -> (p: Pacing)
    ensures
        p == spec_pacing(state, last, now, threshold),
{
    let passed: u64 = if now >= last {
        now - last
    } else {
        0
    };
    if state == GameState::GameOver || state == GameState::Paused {
        Pacing::Skip
    } else if passed < threshold {
        Pacing::Wait(threshold - passed)
    } else {
        Pacing::Step
    }
}

/// `payload` holds the vertices `data`, their number, and the number of
/// numbers they come to at two coordinates and four colour channels each; a
/// count that its field cannot hold is given as the field's largest value.
pub open spec fn is_payload_of(payload: VerticePayload, data: Seq<Vertex>) -> bool {
    &&& payload.data@ == data
    &&& payload.vertice_size == (if data.len() <= i32::MAX {
        data.len() as i32
    } else {
        i32::MAX
    })
    &&& payload.length == (if 6 * data.len() <= usize::MAX {
        (6 * data.len()) as usize
    } else {
        usize::MAX
    })
}

/// Wraps a list of vertices up for the renderer.
pub fn make_payload(data: Vec<Vertex>) -> (payload: VerticePayload)
    ensures
        payload.data == data,
        is_payload_of(payload, data@),
{
    let count = data.len();
    let vertice_size: i32 = if count <= i32::MAX as usize {
        count as i32
    } else {
        i32::MAX
    };
    let length: usize = if count <= usize::MAX / 6 {
        6 * count
    } else {
        usize::MAX
    };
    VerticePayload { data, length, vertice_size }
}

/// Runs a game: paces its steps against the clock, lets a player or the
/// navigation engine steer, and says what to draw and whom to tell.
pub struct GameOrchestrator<R: Randomizer, A: AiController> {
    pub state: GameState,
    pub game: Game<R>,
    pub ai_controller: A,
    /// When the last step was made, in milliseconds.
    pub last_timestamp: u64,
    /// The callback that the frame scheduler holds for the loop, if any.
    pub callback_handle: Option<ClosureHandle>,
}

impl<R: Randomizer, A: AiController> GameOrchestrator<R, A> {
    /// Everything but the game is in `after` as it is in `self`.
    pub open spec fn same_but_game(self, after: Self) -> bool {
        &&& after.state == self.state
        &&& after.ai_controller == self.ai_controller
        &&& after.last_timestamp == self.last_timestamp
        &&& after.callback_handle == self.callback_handle
    }

    /// The game as a step ticks it: with the engine's choice of heading taken
    /// up while the engine plays, and as it is while it does not.
    pub open spec fn steered_game(self, choice: Option<Direction>) -> Game<R> {
        Game {
            direction: if self.state == GameState::AiPlaying {
                steered(self.game.direction, choice)
            } else {
                self.game.direction
            },
            ..self.game
        }
    }

    /// One step with the engine's `choice` in hand leads from `self` to
    /// `after` and comes to `outcome`. The game is ticked with the heading
    /// settled as `steered_game` says, and `outcome.result` is what the tick
    /// came to. The payload holds the board as the tick left it. State and
    /// notice follow from the result. A game of the engine's that is over is
    /// then reset; any other game is left as the tick left it.
    pub open spec fn steps_to(self, choice: Option<Direction>, after: Self, outcome: StepOutcome) -> bool {
        let start = self.steered_game(choice);
        &&& after.state == spec_next_state(self.state, outcome.result)
        &&& outcome.notice == spec_notice(self.state, outcome.result)
        &&& after.ai_controller == self.ai_controller
        &&& after.last_timestamp == self.last_timestamp
        &&& after.callback_handle == self.callback_handle
        &&& if restarts(self.state, outcome.result) {
            exists|ticked: Game<R>|
                {
                    &&& #[trigger] start.ticks_to(ticked, outcome.result)
                    &&& is_payload_of(outcome.payload, ticked.spec_vertices())
                    &&& ticked.resets_to(after.game)
                }
        } else {
            &&& start.ticks_to(after.game, outcome.result)
            &&& is_payload_of(outcome.payload, after.game.spec_vertices())
        }
    }

    /// The orchestrator with the time of the last step set to `timestamp`.
    pub open spec fn at_time(self, timestamp: u64) -> Self {
        GameOrchestrator { last_timestamp: timestamp, ..self }
    }

    /// An idle orchestrator whose game has yet to be set up.
    pub fn new(options: GameOptions, randomizer: R, ai_controller: A) -> (orchestrator: Self)
        ensures
            orchestrator.state == GameState::Idle,
            orchestrator.last_timestamp == 0,
            orchestrator.callback_handle is None,
            orchestrator.ai_controller == ai_controller,
            orchestrator.game.options == options,
            orchestrator.game.randomizer == randomizer,
            orchestrator.game.direction == Direction::Right,
            orchestrator.game.snake@.len() == 0,
            orchestrator.game.snake.spec_body_length() == 0,
            orchestrator.game.foods@.len() == 0,
            orchestrator.game.obstacles@.len() == 0,
    {
        GameOrchestrator {
            state: GameState::Idle,
            game: Game::new(options, randomizer),
            ai_controller,
            last_timestamp: 0,
            callback_handle: None,
        }
    }

    /// Sets the board up, as `Game::sets_up_to` describes it.
    pub fn initialize(&mut self)
        requires
            old(self).game.options.is_valid(),
        ensures
            (*old(self)).same_but_game(*final(self)),
            old(self).game.sets_up_to(final(self).game),
            final(self).game.is_playable(),
    {
        self.game.initialize();
    }

    /// Starts a game over, as `Game::resets_to` describes it.
    pub fn play(&mut self)
        requires
            old(self).game.options.grid_is_valid(),
        ensures
            (*old(self)).same_but_game(*final(self)),
            old(self).game.resets_to(final(self).game),
            old(self).game.snake.spec_body_length() >= 2 ==> final(self).game.is_playable(),
    {
        self.game.reset();
    }

    /// Pauses the loop. The result is the callback to cancel, if the frame
    /// scheduler holds one.
    pub fn stop(&mut self) -> (cancel: Option<ClosureHandle>)
        ensures
            cancel == old(self).callback_handle,
            final(self).state == GameState::Paused,
            final(self).callback_handle is None,
            final(self).game == old(self).game,
            final(self).ai_controller == old(self).ai_controller,
            final(self).last_timestamp == old(self).last_timestamp,
    {
        self.state = GameState::Paused;
        let cancel = self.callback_handle;
        self.callback_handle = None;
        cancel
    }

    /// Resets the game, as `Game::resets_to` describes it. The state stays as
    /// it is: what state follows a reset is for the caller to say.
    pub fn reset(&mut self)
        requires
            old(self).game.options.grid_is_valid(),
        ensures
            (*old(self)).same_but_game(*final(self)),
            old(self).game.resets_to(final(self).game),
            old(self).game.snake.spec_body_length() >= 2 ==> final(self).game.is_playable(),
    {
        self.game.reset();
    }

    /// Starts the loop, for the navigation engine or for a player. The result
    /// is what to ask of the frame scheduler.
    pub fn start_game_loop(&mut self, is_ai_playing: bool) -> (request: FrameRequest)
        ensures
            request == FrameRequest::NextFrame,
            final(self).state == (if is_ai_playing {
                GameState::AiPlaying
            } else {
                GameState::UserPlaying
            }),
            final(self).game == old(self).game,
            final(self).ai_controller == old(self).ai_controller,
            final(self).last_timestamp == old(self).last_timestamp,
            final(self).callback_handle == old(self).callback_handle,
    {
        if is_ai_playing {
            self.state = GameState::AiPlaying;
        } else {
            self.state = GameState::UserPlaying;
        }
        FrameRequest::NextFrame
    }

    /// Notes the callback that the frame scheduler holds for the loop. The
    /// result is the callback that it held before, which is to be cancelled so
    /// that at most one is pending.
    pub fn frame_scheduled(&mut self, handle: ClosureHandle) -> (stale: Option<ClosureHandle>)
        ensures
            stale == old(self).callback_handle,
            final(self).callback_handle == Some(handle),
            final(self).state == old(self).state,
            final(self).game == old(self).game,
            final(self).ai_controller == old(self).ai_controller,
            final(self).last_timestamp == old(self).last_timestamp,
    {
        let stale = self.callback_handle;
        self.callback_handle = Some(handle);
        stale
    }

    /// One step with the engine's choice of heading in hand, as `steps_to`
    /// describes it.
    pub fn step_with(&mut self, choice: Option<Direction>) -> (outcome: StepOutcome)
        requires
            old(self).game.is_playable(),
        ensures
            final(self).game.is_playable(),
            (*old(self)).steps_to(choice, *final(self), outcome),
    {
        if self.state == GameState::AiPlaying {
            if let Some(direction) = choice {
                self.game.change_direction(direction);
            }
        }
        let ghost start = self.game;
        assert(start == old(self).steered_game(choice));
        let game_result = self.game.update();
        let ghost ticked = self.game;
        let payload = make_payload(self.game.get_vertices());
        let (next_state, notice) = dispatch(self.state, game_result);
        if game_result == GameResult::Over && self.state == GameState::AiPlaying {
            self.game.reset();
            assert(start.ticks_to(ticked, game_result));
        }
        self.state = next_state;
        StepOutcome { result: game_result, payload, notice }
    }

    /// One step: while the engine plays it is asked for a heading, then the
    /// step is made with its answer, as `steps_to` describes it. While the
    /// engine does not play it is not asked, and the step is made without a
    /// choice.
    pub fn on_game_loop(&mut self) -> (outcome: StepOutcome)
        requires
            old(self).game.is_playable(),
        ensures
            final(self).game.is_playable(),
            exists|choice: Option<Direction>| #[trigger]
                (*old(self)).steps_to(choice, *final(self), outcome),
            old(self).state != GameState::AiPlaying ==> (*old(self)).steps_to(
                None,
                *final(self),
                outcome,
            ),
    {
        let choice = if self.state == GameState::AiPlaying {
            self.ai_controller.get_direction(
                &self.game.snake,
                self.game.foods.as_slice(),
                self.game.obstacles.as_slice(),
                self.game.options.grid_size,
            )
        } else {
            None
        };
        self.step_with(choice)
    }

    /// The tick that the frame scheduler runs, with the time in milliseconds.
    /// A loop that is paused or over does nothing. Before
    /// `frame_threshold_ms` have passed since the last step, the tick asks to
    /// be run again once they have. Else it notes the time, makes a step as
    /// `on_game_loop` does, and asks to be run again at the next frame.
    pub fn on_tick(&mut self, timestamp: u64) -> (outcome: TickOutcome)
        requires
            is_running(old(self).state) ==> old(self).game.is_playable(),
        ensures
            is_running(final(self).state) ==> final(self).game.is_playable(),
            match spec_pacing(
                old(self).state,
                old(self).last_timestamp,
                timestamp,
                old(self).game.options.frame_threshold_ms,
            ) {
                Pacing::Skip => {
                    &&& outcome.step is None
                    &&& outcome.request == FrameRequest::Nothing
                    &&& *final(self) == *old(self)
                },
                Pacing::Wait(delay) => {
                    &&& outcome.step is None
                    &&& outcome.request == FrameRequest::After(delay)
                    &&& *final(self) == *old(self)
                },
                Pacing::Step => {
                    &&& outcome.request == FrameRequest::NextFrame
                    &&& final(self).last_timestamp == timestamp
                    &&& final(self).game.is_playable()
                    &&& outcome.step matches Some(step) && {
                        &&& exists|choice: Option<Direction>| #[trigger]
                            (*old(self)).at_time(timestamp).steps_to(choice, *final(self), step)
                        &&& old(self).state != GameState::AiPlaying ==> (*old(self)).at_time(
                            timestamp,
                        ).steps_to(None, *final(self), step)
                    }
                },
            },
    {
        match pace(
            self.state,
            self.last_timestamp,
            timestamp,
            self.game.options.frame_threshold_ms,
        ) {
            Pacing::Skip => TickOutcome { step: None, request: FrameRequest::Nothing },
            Pacing::Wait(delay) => TickOutcome { step: None, request: FrameRequest::After(delay) },
            Pacing::Step => {
                self.last_timestamp = timestamp;
                assert(*self == (*old(self)).at_time(timestamp));
                let step = self.on_game_loop();
                TickOutcome { step: Some(step), request: FrameRequest::NextFrame }
            },
        }
    }

    /// A key was pressed. While a player plays, a key that is bound to a
    /// direction steers the snake; at other times, and for other keys,
    /// nothing happens.
    pub fn on_key_down(&mut self, key: &str)
        ensures
            final(self).game.direction == (if old(self).state == GameState::UserPlaying {
                steered(old(self).game.direction, bound_direction(key@))
            } else {
                old(self).game.direction
            }),
            (*old(self)).same_but_game(*final(self)),
            final(self).game.options == old(self).game.options,
            final(self).game.snake == old(self).game.snake,
            final(self).game.foods == old(self).game.foods,
            final(self).game.obstacles == old(self).game.obstacles,
    {
        if self.state != GameState::UserPlaying {
            return ;
        }
        if let Some(direction) = direction_for_key(key) {
            self.game.change_direction(direction);
        }
    }

    /// Takes up new options and starts the game over, as
    /// `Game::reconfigures_to` describes it.
    pub fn apply_options_and_reset(&mut self, options: GameOptions)
        requires
            options.is_valid(),
        ensures
            (*old(self)).same_but_game(*final(self)),
            old(self).game.reconfigures_to(options, final(self).game),
            old(self).game.snake.spec_body_length() >= 2 ==> final(self).game.is_playable(),
    {
        self.game.apply_options_and_reset(options);
    }

    /// Checks `options` and, where they can be played with, makes an idle
    /// orchestrator of them whose board is set up as `Game::setup` sets it up.
    pub fn setup(options: GameOptions, randomizer: R, ai_controller: A) -> (made: Result<
        Self,
        ConfigError,
    >)
        ensures
            made is Ok <==> options.is_valid(),
            made matches Err(e) ==> (e == ConfigError::InvalidGridSize <==> !options.grid_is_valid()),
            made matches Ok(orchestrator) ==> {
                &&& orchestrator.state == GameState::Idle
                &&& orchestrator.last_timestamp == 0
                &&& orchestrator.callback_handle is None
                &&& orchestrator.ai_controller == ai_controller
                &&& orchestrator.game.is_playable()
                &&& orchestrator.game.options == options
                &&& orchestrator.game.direction == Direction::Right
                &&& orchestrator.game.snake@ == initial_body(
                    INITIAL_BODY_LENGTH as nat,
                    options.grid_size as int,
                )
                &&& orchestrator.game.snake.spec_body_length() == INITIAL_BODY_LENGTH
                &&& orchestrator.game.snake.spec_grid_size() == options.grid_size
                &&& orchestrator.game.snake.spec_color() == options.snake_rgba()
                &&& orchestrator.game.board_is_placed()
                &&& options.difficulty == Difficulty::Hard
                    ==> orchestrator.game.obstacles_are_placed()
                &&& options.difficulty == Difficulty::Easy ==> orchestrator.game.obstacles@.len()
                    == 0
            },
    {
        match options.validate() {
            Ok(_) => {
                let mut orchestrator = GameOrchestrator::new(options, randomizer, ai_controller);
                orchestrator.initialize();
                Ok(orchestrator)
            },
            Err(e) => Err(e),
        }
    }

    /// Checks `options` and, where they can be played with, takes them up and
    /// starts the game over. Options that cannot be played with leave
    /// everything as it is.
    pub fn reconfigure(&mut self, options: GameOptions) -> (done: Result<(), ConfigError>)
        ensures
            done is Ok <==> options.is_valid(),
            done matches Err(e) ==> {
                &&& e == ConfigError::InvalidGridSize <==> !options.grid_is_valid()
                &&& *final(self) == *old(self)
            },
            done is Ok ==> {
                &&& (*old(self)).same_but_game(*final(self))
                &&& old(self).game.reconfigures_to(options, final(self).game)
                &&& old(self).game.snake.spec_body_length() >= 2 ==> final(self).game.is_playable()
            },
    {
        match options.validate() {
            Ok(_) => {
                self.apply_options_and_reset(options);
                Ok(())
            },
            Err(e) => Err(e),
        }
    }
}

} // verus!
