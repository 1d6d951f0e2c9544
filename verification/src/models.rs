use vstd::prelude::*;
use crate::colors::{css_rgba8, parse_css_color, Rgba};

verus! {

/// What the loop that drives the game is doing.
#[derive(Debug, Copy, Clone, PartialEq, Eq, Hash, Structural)]
pub enum GameState {
    Idle,
    AiPlaying,
    UserPlaying,
    Paused,
    GameOver,
}

/// `Hard` adds obstacles to the board.
#[derive(Debug, Copy, Clone, PartialEq, Eq, Structural)]
pub enum Difficulty {
    Easy,
    Hard,
}

impl Default for Difficulty {
    fn default() -> (d: Difficulty)
        ensures
            d == Difficulty::Easy,
    {
        Difficulty::Easy
    }
}

/// A heading on the grid. `Up` increases `y`, `Right` increases `x`.
#[derive(Debug, Copy, Clone, PartialEq, Eq, Hash, Structural)]
pub enum Direction {
    Up,
    Down,
    Left,
    Right,
}

impl Direction {
    /// The heading that points the other way.
    pub open spec fn spec_opposite(self) -> Direction {
        match self {
            Direction::Up => Direction::Down,
            Direction::Down => Direction::Up,
            Direction::Left => Direction::Right,
            Direction::Right => Direction::Left,
        }
    }

    #[verifier::when_used_as_spec(spec_opposite)]
    pub fn opposite(self) -> (r: Direction)
        ensures
            r == self.spec_opposite(),
    {
        match self {
            Direction::Up => Direction::Down,
            Direction::Down => Direction::Up,
            Direction::Left => Direction::Right,
            Direction::Right => Direction::Left,
        }
    }
}

/// What one tick of the simulation came to.
#[derive(Debug, Copy, Clone, PartialEq, Eq, Hash, Structural)]
pub enum GameResult {
    Noop,
    Score,
    Over,
}

/// A corner of a triangle to draw: its place on the surface and its colour.
/// The coordinates count units of `1 / vertex_scale(grid_size)`, with the
/// surface spanning `-1..1` in both axes.
#[derive(Debug, Copy, Clone, PartialEq, Eq, Structural)]
pub struct Vertex {
    pub x: i64,
    pub y: i64,
    pub color: Rgba,
}

/// What is handed to the renderer: a list of triangles.
#[derive(Debug)]
pub struct VerticePayload {
    /// Three vertices per triangle.
    pub data: Vec<Vertex>,
    /// How many numbers `data` comes to once every vertex is written as two
    /// coordinates and four colour channels.
    pub length: usize,
    /// The number of vertices.
    pub vertice_size: i32,
}

/// Why a set of options cannot be played with.
#[derive(Debug, Copy, Clone, PartialEq, Eq, Structural)]
pub enum ConfigError {
    /// The grid side is below one.
    InvalidGridSize,
    /// The snake colour is no CSS colour.
    InvalidColor,
}

/// The configuration of a game.
#[derive(Debug)]
pub struct GameOptions {
    /// Names the surface that is drawn on; the simulation never reads it.
    pub id: String,
    /// A CSS colour.
    pub snake_color: String,
    pub difficulty: Difficulty,
    /// The side of the square grid, in cells.
    pub grid_size: i32,
    pub food_count: u32,
    pub fps: i32,
    /// The least time between two ticks, in milliseconds.
    pub frame_threshold_ms: u64,
}

impl GameOptions {
    /// The grid has at least one cell.
    pub open spec fn grid_is_valid(&self) -> bool {
        self.grid_size >= 1
    }

    /// The options can be played with: the grid has a cell and the snake colour
    /// parses.
    pub open spec fn is_valid(&self) -> bool {
        self.grid_is_valid() && css_rgba8(self.snake_color@) is Some
    }

    /// The snake colour that these options ask for.
    pub open spec fn snake_rgba(&self) -> Rgba {
        css_rgba8(self.snake_color@).unwrap()
    }

    /// Checks the options, first the grid side and then the colour.
    pub fn validate(&self) -> (r: Result<Rgba, ConfigError>)
        ensures
            r is Ok <==> self.is_valid(),
            r is Ok ==> r == Ok::<Rgba, ConfigError>(self.snake_rgba()),
            r == Err::<Rgba, ConfigError>(ConfigError::InvalidGridSize) <==> !self.grid_is_valid(),
            r == Err::<Rgba, ConfigError>(ConfigError::InvalidColor) <==> self.grid_is_valid()
                && css_rgba8(self.snake_color@) is None,
    {
        if self.grid_size < 1 {
            return Err(ConfigError::InvalidGridSize);
        }
        match parse_css_color(self.snake_color.as_str()) {
            Some(color) => Ok(color),
            None => Err(ConfigError::InvalidColor),
        }
    }

    /// A copy of the options, field for field.
    pub fn duplicate(&self) -> (r: GameOptions)
        ensures
            r == *self,
    {
        GameOptions {
            id: self.id.clone(),
            snake_color: self.snake_color.clone(),
            difficulty: self.difficulty,
            grid_size: self.grid_size,
            food_count: self.food_count,
            fps: self.fps,
            frame_threshold_ms: self.frame_threshold_ms,
        }
    }
}

impl Clone for GameOptions {
    fn clone(&self) -> (r: GameOptions)
        ensures
            r == *self,
    {
        self.duplicate()
    }
}

impl Default for GameOptions {
    fn default() -> (r: GameOptions)
        ensures
            r.id@ == Seq::<char>::empty(),
            r.snake_color@ == Seq::<char>::empty(),
            r.difficulty == Difficulty::Easy,
            r.grid_size == 0,
            r.food_count == 0,
            r.fps == 0,
            r.frame_threshold_ms == 0,
    {
        GameOptions {
            id: String::new(),
            snake_color: String::new(),
            difficulty: Difficulty::Easy,
            grid_size: 0,
            food_count: 0,
            fps: 0,
            frame_threshold_ms: 0,
        }
    }
}

} // verus!
