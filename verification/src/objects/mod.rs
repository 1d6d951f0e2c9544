pub mod food;
pub mod obstacle;
pub mod snake;

pub use food::Food;
pub use obstacle::Obstacle;
pub use snake::Snake;
