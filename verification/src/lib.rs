//! Game logic of Nile, a tile-laying board game in which players extend a
//! river across a 21x21 board towards an end-of-game column.

pub mod ai;
pub mod board;
pub mod constants;
pub mod error;
pub mod event;
pub mod log;
pub mod menu;
pub mod nile;
pub mod path;
pub mod player;
pub mod score;
pub mod supply;
pub mod state;
pub mod text;
pub mod tile;
pub mod utils;

pub use crate::tile::{Coordinates, Rotation, Tile, TileBox};
