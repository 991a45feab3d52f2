//! The mathematical model of a board: a flat sequence of tiles read as a
//! fixed-size 2D grid, indexed `(x, y)` column by column.

use vstd::prelude::*;

use crate::counting::count_tiles;
use crate::tile::tile_is_mine;
use crate::tile::Tile;

verus! {

/// The abstract state of a board: `width` columns of `height` tiles,
/// stored column-major in `tiles` (`(x, y)` lives at `x * height + y`).
#[verifier::ext_equal]
pub struct GridModel {
    pub tiles: Seq<Tile>,
    pub width: nat,
    pub height: nat,
}

/// The predicate counted by `mine_count`.
pub open spec fn mine_pred() -> spec_fn(Tile) -> bool {
    |t: Tile| tile_is_mine(t)
}

/// The predicate counted by `hidden_safe_count`: an unrevealed tile with
/// no mine under it, the only kind a reveal can still change.
pub open spec fn hidden_safe_pred() -> spec_fn(Tile) -> bool {
    |t: Tile| t == Tile::HiddenMine(false)
}

/// Whether `(a, b)` is one of the up-to-8 neighbors of `(x, y)`:
/// the 3-by-3 block around it, minus the center.
pub open spec fn adjacent(x: int, y: int, a: int, b: int) -> bool {
    &&& x - 1 <= a <= x + 1
    &&& y - 1 <= b <= y + 1
    &&& !(a == x && b == y)
}

impl GridModel {
    /// The flat position of `(x, y)`.
    pub open spec fn idx(self, x: int, y: int) -> int {
        x * self.height + y
    }

    /// The dimensions and the backing sequence agree.
    pub open spec fn wf(self) -> bool {
        self.tiles.len() == self.width * self.height
    }

    pub open spec fn in_bounds(self, x: int, y: int) -> bool {
        &&& 0 <= x < self.width
        &&& 0 <= y < self.height
    }

    /// The tile at `(x, y)`.
    pub open spec fn at(self, x: int, y: int) -> Tile {
        self.tiles[self.idx(x, y)]
    }

    /// The grid with the tile at `(x, y)` replaced by `t`.
    pub open spec fn update_at(self, x: int, y: int, t: Tile) -> GridModel {
        GridModel { tiles: self.tiles.update(self.idx(x, y), t), ..self }
    }

    /// How many tiles of the whole grid conceal a mine.
    pub open spec fn mine_count(self) -> nat {
        count_tiles(self.tiles, mine_pred())
    }

    /// How many tiles are still unrevealed non-mines.
    pub open spec fn hidden_safe_count(self) -> nat {
        count_tiles(self.tiles, hidden_safe_pred())
    }

    /// 1 when `(x, y)` is on the grid and conceals a mine, else 0.
    pub open spec fn mine_ind(self, x: int, y: int) -> nat {
        if self.in_bounds(x, y) && tile_is_mine(self.at(x, y)) {
            1
        } else {
            0
        }
    }

    /// How many of the up-to-8 neighbors of `(x, y)` conceal mines.
    /// Neighbor coordinates outside the grid are excluded, never wrapped.
    pub open spec fn neighbor_mines(self, x: int, y: int) -> nat {
        self.mine_ind(x - 1, y - 1) + self.mine_ind(x - 1, y) + self.mine_ind(x - 1, y + 1)
            + self.mine_ind(x, y - 1) + self.mine_ind(x, y + 1) + self.mine_ind(x + 1, y - 1)
            + self.mine_ind(x + 1, y) + self.mine_ind(x + 1, y + 1)
    }

    /// Whether the neighbor at `(x, y)` would still give a cascade work
    /// to do: an unrevealed non-mine to reveal, or a flag to skip over.
    pub open spec fn blocks_exposure(self, x: int, y: int) -> bool {
        self.in_bounds(x, y) && (self.at(x, y) == Tile::HiddenMine(false) || self.at(x, y)
            is Flagged)
    }

    /// Whether the region around `(x, y)` is already fully exposed: none
    /// of its neighbors is an unrevealed non-mine or a flag.
    pub open spec fn exposed(self, x: int, y: int) -> bool {
        &&& !self.blocks_exposure(x - 1, y - 1)
        &&& !self.blocks_exposure(x - 1, y)
        &&& !self.blocks_exposure(x - 1, y + 1)
        &&& !self.blocks_exposure(x, y - 1)
        &&& !self.blocks_exposure(x, y + 1)
        &&& !self.blocks_exposure(x + 1, y - 1)
        &&& !self.blocks_exposure(x + 1, y)
        &&& !self.blocks_exposure(x + 1, y + 1)
    }
}

/// No neighbor of `(x, y)` is an unrevealed non-mine.
pub open spec fn no_hidden_neighbor(g: GridModel, x: int, y: int) -> bool {
    forall|a: int, b: int|
        adjacent(x, y, a, b) && g.in_bounds(a, b) ==> (#[trigger] g.at(a, b)) != Tile::HiddenMine(
            false,
        )
}

/// How a reveal is allowed to change the grid: the dimensions stand, and
/// every tile is either untouched or was an unrevealed non-mine and now
/// shows its true neighbor count.
pub open spec fn frame_preserved(g0: GridModel, g1: GridModel) -> bool {
    &&& g1.width == g0.width
    &&& g1.height == g0.height
    &&& g1.tiles.len() == g0.tiles.len()
    &&& forall|i: int, j: int|
        g0.in_bounds(i, j) ==> (#[trigger] g1.at(i, j)) == g0.at(i, j) || (g0.at(i, j)
            == Tile::HiddenMine(false) && g1.at(i, j) == Tile::Near(
            g0.neighbor_mines(i, j) as usize,
        ))
}

/// A finished cascade leaves no loose frontier: wherever this call turned
/// an unrevealed non-mine into a `Near(0)` tile, none of that tile's
/// neighbors is an unrevealed non-mine any more.
pub open spec fn cascade_closed(g0: GridModel, g1: GridModel) -> bool {
    forall|i: int, j: int|
        g0.in_bounds(i, j) && g0.at(i, j) == Tile::HiddenMine(false) && (#[trigger] g1.at(i, j))
            == Tile::Near(0) ==> no_hidden_neighbor(g1, i, j)
}

/// An exposed region really has no unrevealed non-mine next to it: the
/// 8 explicit neighbor checks of `exposed` cover every adjacent cell.
pub proof fn lemma_exposed_no_hidden(g: GridModel, x: int, y: int)
    requires
        g.exposed(x, y),
    ensures
        no_hidden_neighbor(g, x, y),
{
    assert forall|a: int, b: int| adjacent(x, y, a, b) && g.in_bounds(a, b) implies (
    #[trigger] g.at(a, b)) != Tile::HiddenMine(false) by {
        assert(a == x - 1 || a == x || a == x + 1);
        assert(b == y - 1 || b == y || b == y + 1);
    }
}

/// A flat position below `width * height` for coordinates on the grid.
pub proof fn lemma_idx_bounds(g: GridModel, x: int, y: int)
    requires
        g.wf(),
        g.in_bounds(x, y),
    ensures
        0 <= g.idx(x, y) < g.tiles.len(),
{
    assert(0 <= x * g.height + y < g.width * g.height) by (nonlinear_arith)
        requires
            0 <= x < g.width,
            0 <= y < g.height,
    ;
}

/// Distinct coordinates occupy distinct flat positions.
pub proof fn lemma_idx_injective(g: GridModel, x1: int, y1: int, x2: int, y2: int)
    requires
        g.in_bounds(x1, y1),
        g.in_bounds(x2, y2),
        !(x1 == x2 && y1 == y2),
    ensures
        g.idx(x1, y1) != g.idx(x2, y2),
{
    assert(x1 * g.height + y1 != x2 * g.height + y2) by (nonlinear_arith)
        requires
            0 <= x1 < g.width,
            0 <= x2 < g.width,
            0 <= y1 < g.height,
            0 <= y2 < g.height,
            !(x1 == x2 && y1 == y2),
    ;
}

/// What a single tile replacement does to the grid, tile by tile.
pub proof fn lemma_update_at(g: GridModel, x: int, y: int, t: Tile)
    requires
        g.wf(),
        g.in_bounds(x, y),
    ensures
        g.update_at(x, y, t).wf(),
        g.update_at(x, y, t).width == g.width,
        g.update_at(x, y, t).height == g.height,
        g.update_at(x, y, t).tiles.len() == g.tiles.len(),
        g.update_at(x, y, t).at(x, y) == t,
        forall|i: int, j: int|
            g.in_bounds(i, j) && !(i == x && j == y) ==> (#[trigger] g.update_at(x, y, t).at(i, j))
                == g.at(i, j),
{
    lemma_idx_bounds(g, x, y);
    assert forall|i: int, j: int| g.in_bounds(i, j) && !(i == x && j == y) implies (
    #[trigger] g.update_at(x, y, t).at(i, j)) == g.at(i, j) by {
        lemma_idx_bounds(g, i, j);
        lemma_idx_injective(g, i, j, x, y);
    }
}

/// Two grids of the same shape whose tiles agree on mine status have the
/// same neighbor counts everywhere: a reveal never changes a count.
pub proof fn lemma_neighbor_mines_preserved(g0: GridModel, g1: GridModel)
    requires
        g1.width == g0.width,
        g1.height == g0.height,
        forall|i: int, j: int|
            g0.in_bounds(i, j) ==> tile_is_mine(#[trigger] g1.at(i, j)) == tile_is_mine(
                g0.at(i, j),
            ),
    ensures
        forall|x: int, y: int| g1.neighbor_mines(x, y) == #[trigger] g0.neighbor_mines(x, y),
{
    assert forall|i: int, j: int| g1.mine_ind(i, j) == #[trigger] g0.mine_ind(i, j) by {
        if g0.in_bounds(i, j) {
            assert(tile_is_mine(g1.at(i, j)) == tile_is_mine(g0.at(i, j)));
        }
    }
}

} // verus!
