//! Rules engine for a two-player drop-disc game: discs fall to the lowest free
//! cell of a column, the players alternate, and the first line of four discs
//! of one player, along a row, a column or a diagonal, wins.
//!
//! Every function is verified against a mathematical model of the game: the
//! board is a finite map from positions to players, and a game is the sequence
//! of columns that were attempted.

pub mod board;
pub mod connect_four;
pub mod error;
pub mod game;
pub mod history;
pub mod player;
pub mod session;
pub mod state;

pub use crate::connect_four::ConnectFour;
pub use crate::error::Error;
pub use crate::game::Game;
pub use crate::player::Player;
pub use crate::session::{Animation, Key, Message};
