//! A single-player hexagonal tile-placement puzzle: nineteen cells, twenty-seven
//! tiles with three numbered edges each, fifteen scoring lines, and a
//! depth-limited expectimax search that recommends placements.
//!
//! - `tile`, `field`, `lines`: the tiles, the cells and the fixed scoring lines.
//! - `placement`, `score`: what a placement is, what it scores and what it can
//!   still come to score, as mathematics over maps from fields to tiles.
//! - `board`, `reservoir`, `game`: the executable board, the supply of tiles
//!   and a game in progress.
//! - `ai`: the search and the engine's moves.
//! - `render`: text for the console.

pub mod ai;
pub mod board;
pub mod error;
pub mod field;
pub mod game;
pub mod lines;
pub mod placement;
pub mod render;
pub mod reservoir;
pub mod score;
pub mod tile;

pub use board::Board;
pub use error::GameError;
pub use field::{Coordinate, Field};
pub use game::Game;
pub use reservoir::TileReservoir;
