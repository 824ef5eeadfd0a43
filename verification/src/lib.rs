//! Console minesweeper: the hidden and the visible board, the flood fill that
//! opens cells, the random laying of mines, the menus, the game's decisions
//! on each key press and the text drawn on screen, with their contracts.

mod rng;

pub mod cell;
pub mod grid;
pub mod text;
pub mod flood;
pub mod mines;
pub mod game;
pub mod menu;
pub mod render;

pub use flood::count_nearby_mines;
