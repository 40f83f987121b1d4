//! Discrete core of a breakout-style ball game: the block grid, row
//! injection, boundary collision resolution, and the wave state machine
//! that coordinates the balls of one launch.

pub mod grid;
pub mod collision;
pub mod wave;
pub mod random;
pub mod rows;
pub mod game;
pub mod stepper;
