//! The engine of a terminal Minesweeper game: cells, the board with its
//! mine layout and cursor, and the controller that turns input events into
//! board operations.

pub mod app;
pub mod args;
pub mod block;
pub mod board;
pub mod cell;
pub mod grid;
pub mod input_listener;
pub mod scoreboard;
