//! Core logic of a Minesweeper-style grid game: a board of tiles with
//! randomly placed mines, tile-reveal mechanics, adjacency mine counts,
//! and cascading reveal of empty regions.

mod board;
mod counting;
mod grid;
mod tile;

pub use board::Board;
pub use board::Error;
pub use counting::count_tiles;
pub use grid::adjacent;
pub use grid::cascade_closed;
pub use grid::frame_preserved;
pub use grid::hidden_safe_pred;
pub use grid::mine_pred;
pub use grid::no_hidden_neighbor;
pub use grid::GridModel;
pub use tile::tile_is_mine;
pub use tile::Tile;
