//! Core simulation of a falling-block puzzle game: piece geometry and
//! rotation, collision against a fixed grid, row clearing with downward
//! compaction, and the tick-driven control loop that binds them together.
//! Rendering and input polling are left to the surrounding application.

pub mod board;
pub mod color;
pub mod state;
pub mod tetromino;

pub use tetromino::TetrominoRotation;
