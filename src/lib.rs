//! Life-like cellular automata on a fixed-size toroidal board.
mod board;
mod cell_state;
mod coord;
pub mod game;
pub mod grid;
pub mod rules;
pub mod text;

pub use board::{Board, BoardError};
pub use cell_state::CellState;
pub use coord::Coord;
pub use game::Game;

