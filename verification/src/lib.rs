//! A grid snake game: the simulation, a breadth-first navigation engine that
//! steers the snake toward food, and the state machine that paces both.

pub mod colors;
pub mod grid;
pub mod models;
pub mod objects;
pub mod vertices;
pub mod abstractions;
pub mod placement;
pub mod randomizer;
pub mod game;
pub mod utils;
pub mod game_orchestrator;
