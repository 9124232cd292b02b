//! A single-player Minesweeper board: cells, deferred mine placement,
//! flood-fill reveal, pointer input and win/loss transitions, with every
//! operation specified over a mathematical model of the grid.

pub mod board;
pub mod cell;
pub mod flood;
pub mod input;
pub mod laws;
pub mod model;
pub mod outcome;
pub mod placement;
pub mod tally;

pub use board::Board;
pub use cell::{Appearance, Cell};
pub use input::Pointer;
pub use outcome::Status;
