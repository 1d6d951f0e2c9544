pub mod ai_controller;
pub mod routes;
pub mod search;

pub use ai_controller::{AiController, GreedyBfsAi};
