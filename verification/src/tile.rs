//! The tile state space: one cell of the grid and its mine status.

use vstd::prelude::*;

verus! {

/// One cell of the grid.
///
/// - `Near(count)`: revealed, not a mine; `count` is the number of mined
///   tiles among its up-to-8 neighbors.
/// - `HiddenMine(is_mine)`: unrevealed; the flag says whether a mine is
///   concealed here. It is set at generation time and changed only by a
///   reveal.
/// - `Flagged(inner)`: a player mark wrapping the tile it conceals. No
///   operation of this crate produces it, but it is part of the valid
///   state space and reveal treats it as protected.
/// - `Mined`: a revealed mine, the terminal "detonated" marker.
#[derive(Debug)]
pub enum Tile {
    Near(usize),
    HiddenMine(bool),
    Flagged(Box<Tile>),
    Mined,
}

/// Whether a tile counts as a mine for adjacency purposes: a detonated
/// mine, a hidden mine, or a flag placed directly over either of those.
/// `Near` tiles and hidden non-mines never count.
pub open spec fn tile_is_mine(t: Tile) -> bool {
    match t {
        Tile::Mined => true,
        Tile::HiddenMine(is_mine) => is_mine,
        Tile::Near(_) => false,
        Tile::Flagged(inner) => match *inner {
            Tile::Mined => true,
            Tile::HiddenMine(is_mine) => is_mine,
            _ => false,
        },
    }
}

impl Tile {
    /// Executable check of `tile_is_mine`.
    pub fn is_mine(&self) -> (r: bool)
        ensures
            r == tile_is_mine(*self),
    {
        match self {
            Tile::Mined => true,
            Tile::HiddenMine(is_mine) => *is_mine,
            Tile::Near(_) => false,
            Tile::Flagged(inner) => match &**inner {
                Tile::Mined => true,
                Tile::HiddenMine(is_mine) => *is_mine,
                _ => false,
            },
        }
    }
}

} // verus!
