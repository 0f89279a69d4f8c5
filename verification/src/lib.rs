//! A turn-based maze chase: a textual board is parsed into a validated grid,
//! a player token ("Theseus") moves one tile per command, and a pursuing
//! token ("Minotaur") advances with a greedy horizontal-then-vertical step.
//! Every operation carries a contract describing exactly what it computes.

pub mod command;
pub mod game;
pub mod grid;
pub mod laws;
pub mod parse;

pub use crate::command::Command;
pub use crate::command::decode;
pub use crate::game::Game;
pub use crate::game::GameStatus;
pub use crate::grid::Grid;
pub use crate::parse::BoardError;
