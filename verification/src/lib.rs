//! Red Alert: the board and fleet model of a turn-based naval battle for any
//! number of players, each on a board of their own.
//!
//! Every type has a mathematical view (`BoatView`, `BoardView`, `PlayerView`,
//! `GameView`) and every operation is specified as a transition between views.
//!
//! A boat owns its pieces, and a piece's state is kept there only. A board
//! cell that a boat covers holds a handle on the piece that lies on it
//! (`PieceRef`). A shot at the board is handed the fleet that lies on it and
//! marks the cell and the piece in one step.

pub mod board;
pub mod boat;
pub mod cell;
pub mod dialogue;
pub mod error;
pub mod fleet;
pub mod game;
pub mod hittable;
pub mod ident;
pub mod listing;
pub mod player;
pub mod text;

pub use crate::game::InvalidGame;
pub use crate::game::RedAlert;
