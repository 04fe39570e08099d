//! A mine-deduction puzzle: a grid of hidden tiles, some holding mines, revealed one dig
//! at a time, with flood fill of empty regions, flags, chords, and win detection.

pub mod board;
pub mod flood;
pub mod game;
pub mod generate;
pub mod key;
pub mod laws;
pub mod lose_menu;
pub mod model;
pub mod option_menu;
pub mod text;
pub mod win_menu;

pub use board::Board;
pub use model::{Tile, TileState};
