//! The board: a fixed-size 2D grid of tiles with generation, reveal,
//! adjacency counting, and cascading reveal.

use vstd::prelude::*;

use rand::seq::SliceRandom;

use crate::counting::count_tiles;
use crate::counting::lemma_all_entries_multiset;
use crate::counting::lemma_count_multiset;
use crate::counting::lemma_count_push;
use crate::counting::lemma_count_update;
use crate::grid::adjacent;
use crate::grid::cascade_closed;
use crate::grid::frame_preserved;
use crate::grid::hidden_safe_pred;
use crate::grid::lemma_exposed_no_hidden;
use crate::grid::lemma_idx_bounds;
use crate::grid::lemma_neighbor_mines_preserved;
use crate::grid::lemma_update_at;
use crate::grid::mine_pred;
use crate::grid::no_hidden_neighbor;
use crate::grid::GridModel;
use crate::tile::tile_is_mine;
use crate::tile::Tile;

verus! {

/// The one failure this crate reports: a construction request whose mine
/// count exceeds the grid's capacity.
#[derive(Debug, Clone, Copy, PartialEq, Eq, Structural)]
pub enum Error {
    InvalidConfiguration,
}

/// Relies on rand 0.8's `SliceRandom::shuffle` (seeded by
/// `rand::thread_rng`): it permutes the slice in place by element swaps
/// (Fisher-Yates), so the multiset of elements is unchanged. Nothing is
/// assumed about the order that comes out.
#[verifier::external_body]
fn shuffle_tiles(tiles: &mut Vec<Tile>)
    ensures
        final(tiles)@.to_multiset() == old(tiles)@.to_multiset(),
{
    let mut rng = rand::thread_rng();
    tiles.shuffle(&mut rng);
}

/// Whether the cascade worklist holds the coordinate `(a, b)`.
spec fn work_contains(w: Seq<(usize, usize)>, a: int, b: int) -> bool {
    exists|k: int|
        0 <= k < w.len() && (#[trigger] w[k]).0 as int == a && w[k].1 as int == b
}

/// Every neighbor of `(i, j)` is either no longer an unrevealed non-mine
/// or still waiting on the worklist.
spec fn neighbor_settled(g0: GridModel, g: GridModel, w: Seq<(usize, usize)>, i: int, j: int) -> bool {
    forall|a: int, b: int|
        adjacent(i, j, a, b) && g0.in_bounds(a, b) ==> (#[trigger] g.at(a, b))
            != Tile::HiddenMine(false) || work_contains(w, a, b)
}

/// Every tile this cascade has turned into `Near(0)` so far has all of
/// its neighbors settled.
spec fn pending_or_clear(g0: GridModel, g: GridModel, w: Seq<(usize, usize)>) -> bool {
    forall|i: int, j: int|
        g0.in_bounds(i, j) && g0.at(i, j) == Tile::HiddenMine(false) && (#[trigger] g.at(i, j))
            == Tile::Near(0) ==> neighbor_settled(g0, g, w, i, j)
}

/// Append one coordinate to the cascade worklist, keeping everything
/// already on it.
fn push_coord(work: &mut Vec<(usize, usize)>, a: usize, b: usize)
    ensures
        final(work)@.len() == old(work)@.len() + 1,
        forall|k: int| 0 <= k < old(work)@.len() ==> final(work)@[k] == old(work)@[k],
        final(work)@[old(work)@.len() as int] == (a, b),
        work_contains(final(work)@, a as int, b as int),
        forall|i: int, j: int|
            #[trigger] work_contains(old(work)@, i, j) ==> work_contains(final(work)@, i, j),
{
    work.push((a, b));
    proof {
        assert(work@[work@.len() - 1] == (a, b));
        assert forall|i: int, j: int| #[trigger] work_contains(old(work)@, i, j) implies work_contains(
            work@,
            i,
            j,
        ) by {
            lemma_contains_extend(old(work)@, work@, i, j);
        }
    }
}

/// A coordinate on the worklist survives popping another entry, or was
/// that very entry.
proof fn lemma_contains_after_pop(w: Seq<(usize, usize)>, a: int, b: int)
    requires
        w.len() > 0,
        work_contains(w, a, b),
    ensures
        work_contains(w.subrange(0, w.len() - 1), a, b) || (w[w.len() - 1].0 as int == a && w[w.len()
            - 1].1 as int == b),
{
    let k = choose|k: int| 0 <= k < w.len() && (#[trigger] w[k]).0 as int == a && w[k].1 as int == b;
    if k < w.len() - 1 {
        assert(w.subrange(0, w.len() - 1)[k] == w[k]);
    }
}

/// A coordinate on the worklist survives appending more entries.
proof fn lemma_contains_extend(w1: Seq<(usize, usize)>, w2: Seq<(usize, usize)>, a: int, b: int)
    requires
        w2.len() >= w1.len(),
        forall|k: int| 0 <= k < w1.len() ==> w2[k] == w1[k],
        work_contains(w1, a, b),
    ensures
        work_contains(w2, a, b),
{
    let k = choose|k: int|
        0 <= k < w1.len() && (#[trigger] w1[k]).0 as int == a && w1[k].1 as int == b;
    assert(w2[k] == w1[k]);
}

/// One worklist step keeps a cell's neighbors settled: the grid changed
/// at most at the popped coordinate `(cx, cy)`, which is no unrevealed
/// non-mine afterwards, and the worklist lost only that entry.
proof fn lemma_settled_step(
    g0: GridModel,
    g_pre: GridModel,
    g_new: GridModel,
    w_pre: Seq<(usize, usize)>,
    w_new: Seq<(usize, usize)>,
    cx: int,
    cy: int,
    i: int,
    j: int,
)
    requires
        neighbor_settled(g0, g_pre, w_pre, i, j),
        w_pre.len() > 0,
        w_pre[w_pre.len() - 1].0 as int == cx,
        w_pre[w_pre.len() - 1].1 as int == cy,
        w_new.len() >= w_pre.len() - 1,
        forall|k: int| 0 <= k < w_pre.len() - 1 ==> w_new[k] == w_pre[k],
        forall|a: int, b: int|
            g0.in_bounds(a, b) && !(a == cx && b == cy) ==> #[trigger] g_new.at(a, b) == g_pre.at(
                a,
                b,
            ),
        g_new.at(cx, cy) != Tile::HiddenMine(false),
    ensures
        neighbor_settled(g0, g_new, w_new, i, j),
{
    let w_mid = w_pre.subrange(0, w_pre.len() - 1);
    assert forall|a: int, b: int| adjacent(i, j, a, b) && g0.in_bounds(a, b) implies (
    #[trigger] g_new.at(a, b)) != Tile::HiddenMine(false) || work_contains(w_new, a, b) by {
        assert(g_pre.at(a, b) != Tile::HiddenMine(false) || work_contains(w_pre, a, b));
        if a == cx && b == cy {
            assert(g_new.at(a, b) != Tile::HiddenMine(false));
        } else if g_pre.at(a, b) != Tile::HiddenMine(false) {
            assert(g_new.at(a, b) == g_pre.at(a, b));
        } else {
            lemma_contains_after_pop(w_pre, a, b);
            assert(work_contains(w_mid, a, b));
            lemma_contains_extend(w_mid, w_new, a, b);
        }
    }
}

/// A `width * height` grid of tiles, stored column-major: the tile at
/// `(x, y)` lives at flat position `x * height + y`. Dimensions are fixed
/// at construction.
pub struct Board {
    tiles: Vec<Tile>,
    width: usize,
    height: usize,
}

impl View for Board {
    type V = GridModel;

    closed spec fn view(&self) -> GridModel {
        GridModel { tiles: self.tiles@, width: self.width as nat, height: self.height as nat }
    }
}

impl Board {
    /// Build a `x_size * y_size` board with exactly `mines` mines placed
    /// by a uniform random shuffle, every tile unrevealed. Fails with
    /// `InvalidConfiguration`, producing no board, exactly when the mines
    /// would not fit on the grid.
    pub fn new(x_size: &usize, y_size: &usize, mines: &usize) -> (r: Result<Board, Error>)
        requires
            (*x_size as int) * (*y_size as int) <= usize::MAX as int,
        ensures
            r is Ok <==> *mines as int <= (*x_size as int) * (*y_size as int),
            r matches Ok(b) ==> b@.wf() && b@.width == *x_size as nat && b@.height == *y_size as nat
                && b@.mine_count() == *mines as nat && (forall|k: int|
                0 <= k < b@.tiles.len() ==> b@.tiles[k] is HiddenMine),
            r is Err ==> r->Err_0 == Error::InvalidConfiguration,
    {
        let mut board = Board { tiles: Vec::new(), width: 0, height: 0 };
        if board.generate(x_size, y_size, mines) {
            Ok(board)
        } else {
            Err(Error::InvalidConfiguration)
        }
    }

    /// Number of columns.
    pub fn width(&self) -> (r: usize)
        ensures
            r as nat == self@.width,
    {
        self.width
    }

    /// Number of tiles in each column.
    pub fn height(&self) -> (r: usize)
        ensures
            r as nat == self@.height,
    {
        self.height
    }

    /// Executable check of the dimension invariant `wf`.
    pub fn well_formed(&self) -> (r: bool)
        ensures
            r == self@.wf(),
    {
        let total = self.width.checked_mul(self.height);
        let len = self.tiles.len();
        match total {
            Some(t) => t == len,
            None => false,
        }
    }

    /// The tile at `(x, y)`.
    pub fn tile(&self, x: usize, y: usize) -> (t: &Tile)
        requires
            self@.wf(),
            self@.in_bounds(x as int, y as int),
        ensures
            *t == self@.at(x as int, y as int),
    {
        proof {
            vstd::std_specs::vec::axiom_spec_len(&self.tiles);
            lemma_idx_bounds(self@, x as int, y as int);
        }
        let i = x * self.height + y;
        &self.tiles[i]
    }

    /// Replace the tile at `(x, y)`.
    fn set_tile(&mut self, x: usize, y: usize, t: Tile)
        requires
            old(self)@.wf(),
            old(self)@.in_bounds(x as int, y as int),
        ensures
            final(self)@ == old(self)@.update_at(x as int, y as int, t),
    {
        proof {
            vstd::std_specs::vec::axiom_spec_len(&self.tiles);
            lemma_idx_bounds(self@, x as int, y as int);
        }
        let i = x * self.height + y;
        self.tiles[i] = t;
        proof {
            assert(self@ =~= old(self)@.update_at(x as int, y as int, t));
        }
    }

    /// Build a board over a prescribed layout: `tiles` read column by
    /// column as `width` columns of `height` tiles. Fails when the layout
    /// does not fill the requested dimensions exactly.
    pub fn from_tiles(tiles: Vec<Tile>, width: usize, height: usize) -> (r: Result<Board, Error>)
        ensures
            r is Ok <==> (width as int) * (height as int) == tiles@.len(),
            r matches Ok(b) ==> b@.wf() && b@.width == width as nat && b@.height == height as nat
                && b@.tiles == tiles@,
            r is Err ==> r->Err_0 == Error::InvalidConfiguration,
    {
        let total = width.checked_mul(height);
        let len = tiles.len();
        match total {
            Some(t) if t == len => Ok(Board { tiles, width, height }),
            _ => Err(Error::InvalidConfiguration),
        }
    }

    /// Build the grid: `mines` mine placeholders and enough empty ones
    /// to fill `x_size * y_size` slots, uniformly shuffled, then taken as
    /// `x_size` columns of `y_size` tiles. Reports failure (and builds
    /// nothing) when the mines would not fit.
    fn generate(&mut self, x_size: &usize, y_size: &usize, mines: &usize) -> (r: bool)
        requires
            (*x_size as int) * (*y_size as int) <= usize::MAX as int,
        ensures
            r == (*mines as int <= (*x_size as int) * (*y_size as int)),
            r ==> final(self)@.wf() && final(self)@.width == *x_size as nat && final(self)@.height
                == *y_size as nat && final(self)@.mine_count() == *mines as nat && (forall|k: int|
                0 <= k < final(self)@.tiles.len() ==> final(self)@.tiles[k] is HiddenMine),
    {
        let total = *x_size * *y_size;
        if *mines > total {
            return false;
        }
        let mut tiles: Vec<Tile> = Vec::new();
        while tiles.len() < *mines
            invariant
                tiles@.len() <= *mines,
                count_tiles(tiles@, mine_pred()) == tiles@.len(),
                forall|k: int| 0 <= k < tiles@.len() ==> tiles@[k] is HiddenMine,
            decreases *mines - tiles.len(),
        {
            proof {
                lemma_count_push(tiles@, Tile::HiddenMine(true), mine_pred());
            }
            tiles.push(Tile::HiddenMine(true));
        }
        while tiles.len() < total
            invariant
                tiles@.len() <= total,
                count_tiles(tiles@, mine_pred()) == *mines as nat,
                forall|k: int| 0 <= k < tiles@.len() ==> tiles@[k] is HiddenMine,
            decreases total - tiles.len(),
        {
            proof {
                lemma_count_push(tiles@, Tile::HiddenMine(false), mine_pred());
            }
            tiles.push(Tile::HiddenMine(false));
        }
        let ghost pre = tiles@;
        shuffle_tiles(&mut tiles);
        proof {
            broadcast use vstd::seq_lib::group_to_multiset_ensures;

            lemma_count_multiset(pre, tiles@, mine_pred());
            lemma_all_entries_multiset(pre, tiles@, |t: Tile| t is HiddenMine);
            assert(pre.to_multiset().len() == pre.len());
            assert(tiles@.to_multiset().len() == tiles@.len());
        }
        *self = Board { tiles, width: *x_size, height: *y_size };
        true
    }

    /// Whether `(x, y)` lies on the grid: the check a caller owes
    /// `touch_tile` and `tile` before handing them a coordinate.
    pub fn is_within(&self, x: usize, y: usize) -> (r: bool)
        ensures
            r == self@.in_bounds(x as int, y as int),
    {
        x < self.width && y < self.height
    }

    /// Whether the tile at `(x, y)` would still give a cascade work to do.
    fn blocks_exposure(&self, x: usize, y: usize) -> (r: bool)
        requires
            self@.wf(),
            self@.in_bounds(x as int, y as int),
        ensures
            r == self@.blocks_exposure(x as int, y as int),
    {
        match self.tile(x, y) {
            Tile::HiddenMine(is_mine) => !*is_mine,
            Tile::Flagged(_) => true,
            _ => false,
        }
    }

    /// Whether the region around `(x, y)` is already fully exposed: none
    /// of the up-to-8 neighbors is an unrevealed non-mine or a flag.
    fn is_exposed(&self, x: usize, y: usize) -> (r: bool)
        requires
            self@.wf(),
            self@.in_bounds(x as int, y as int),
        ensures
            r == self@.exposed(x as int, y as int),
    {
        let b1 = x > 0 && y > 0 && self.blocks_exposure(x - 1, y - 1);
        let b2 = x > 0 && self.blocks_exposure(x - 1, y);
        let b3 = x > 0 && y + 1 < self.height && self.blocks_exposure(x - 1, y + 1);
        let b4 = y > 0 && self.blocks_exposure(x, y - 1);
        let b5 = y + 1 < self.height && self.blocks_exposure(x, y + 1);
        let b6 = x + 1 < self.width && y > 0 && self.blocks_exposure(x + 1, y - 1);
        let b7 = x + 1 < self.width && self.blocks_exposure(x + 1, y);
        let b8 = x + 1 < self.width && y + 1 < self.height && self.blocks_exposure(x + 1, y + 1);
        !(b1 || b2 || b3 || b4 || b5 || b6 || b7 || b8)
    }

    /// Count the mines among the up-to-8 neighbors of `(x, y)`; neighbor
    /// coordinates outside the grid are excluded from the count.
    fn find_nearby(&self, x: usize, y: usize) -> (n: usize)
        requires
            self@.wf(),
            self@.in_bounds(x as int, y as int),
        ensures
            n as nat == self@.neighbor_mines(x as int, y as int),
            n <= 8,
    {
        let mut n: usize = 0;
        if x > 0 && y > 0 && self.tile(x - 1, y - 1).is_mine() {
            n = n + 1;
        }
        assert(n as nat == self@.mine_ind(x - 1, y - 1));
        if x > 0 && self.tile(x - 1, y).is_mine() {
            n = n + 1;
        }
        assert(n as nat == self@.mine_ind(x - 1, y - 1) + self@.mine_ind(x - 1, y as int));
        if x > 0 && y + 1 < self.height && self.tile(x - 1, y + 1).is_mine() {
            n = n + 1;
        }
        assert(n as nat == self@.mine_ind(x - 1, y - 1) + self@.mine_ind(x - 1, y as int)
            + self@.mine_ind(x - 1, y + 1));
        if y > 0 && self.tile(x, y - 1).is_mine() {
            n = n + 1;
        }
        assert(n as nat == self@.mine_ind(x - 1, y - 1) + self@.mine_ind(x - 1, y as int)
            + self@.mine_ind(x - 1, y + 1) + self@.mine_ind(x as int, y - 1));
        if y + 1 < self.height && self.tile(x, y + 1).is_mine() {
            n = n + 1;
        }
        assert(n as nat == self@.mine_ind(x - 1, y - 1) + self@.mine_ind(x - 1, y as int)
            + self@.mine_ind(x - 1, y + 1) + self@.mine_ind(x as int, y - 1) + self@.mine_ind(
            x as int,
            y + 1,
        ));
        if x + 1 < self.width && y > 0 && self.tile(x + 1, y - 1).is_mine() {
            n = n + 1;
        }
        assert(n as nat == self@.mine_ind(x - 1, y - 1) + self@.mine_ind(x - 1, y as int)
            + self@.mine_ind(x - 1, y + 1) + self@.mine_ind(x as int, y - 1) + self@.mine_ind(
            x as int,
            y + 1,
        ) + self@.mine_ind(x + 1, y - 1));
        if x + 1 < self.width && self.tile(x + 1, y).is_mine() {
            n = n + 1;
        }
        assert(n as nat == self@.mine_ind(x - 1, y - 1) + self@.mine_ind(x - 1, y as int)
            + self@.mine_ind(x - 1, y + 1) + self@.mine_ind(x as int, y - 1) + self@.mine_ind(
            x as int,
            y + 1,
        ) + self@.mine_ind(x + 1, y - 1) + self@.mine_ind(x + 1, y as int));
        if x + 1 < self.width && y + 1 < self.height && self.tile(x + 1, y + 1).is_mine() {
            n = n + 1;
        }
        assert(n as nat == self@.neighbor_mines(x as int, y as int));
        n
    }

    /// Put every on-grid neighbor of `(cx, cy)` on the cascade worklist.
    fn push_neighbors(&self, work: &mut Vec<(usize, usize)>, cx: usize, cy: usize)
        requires
            self@.in_bounds(cx as int, cy as int),
        ensures
            final(work)@.len() >= old(work)@.len(),
            forall|k: int| 0 <= k < old(work)@.len() ==> final(work)@[k] == old(work)@[k],
            forall|k: int|
                old(work)@.len() <= k < final(work)@.len() ==> self@.in_bounds(
                    (#[trigger] final(work)@[k]).0 as int,
                    final(work)@[k].1 as int,
                ),
            forall|a: int, b: int|
                adjacent(cx as int, cy as int, a, b) && self@.in_bounds(a, b) ==> work_contains(
                    final(work)@,
                    a,
                    b,
                ),
    {
        if cx > 0 && cy > 0 {
            push_coord(work, cx - 1, cy - 1);
        }
        if cx > 0 {
            push_coord(work, cx - 1, cy);
        }
        if cx > 0 && cy + 1 < self.height {
            push_coord(work, cx - 1, cy + 1);
        }
        if cy > 0 {
            push_coord(work, cx, cy - 1);
        }
        if cy + 1 < self.height {
            push_coord(work, cx, cy + 1);
        }
        if cx + 1 < self.width && cy > 0 {
            push_coord(work, cx + 1, cy - 1);
        }
        if cx + 1 < self.width {
            push_coord(work, cx + 1, cy);
        }
        if cx + 1 < self.width && cy + 1 < self.height {
            push_coord(work, cx + 1, cy + 1);
        }
        proof {
            assert forall|a: int, b: int|
                adjacent(cx as int, cy as int, a, b) && self@.in_bounds(a, b) implies work_contains(
                work@,
                a,
                b,
            ) by {
                assert(a == cx - 1 || a == cx || a == cx + 1);
                assert(b == cy - 1 || b == cy || b == cy + 1);
            }
        }
    }

    /// Cascade around `(origin_x, origin_y)`, a tile with no mines among
    /// its neighbors: reveal each neighbor, and keep going wherever a
    /// revealed tile again counts zero and its region is not already
    /// exposed. Flags and revealed tiles are left untouched.
    fn touch_nearby(&mut self, origin_x: usize, origin_y: usize)
        requires
            old(self)@.wf(),
            old(self)@.in_bounds(origin_x as int, origin_y as int),
            old(self)@.neighbor_mines(origin_x as int, origin_y as int) == 0,
        ensures
            final(self)@.wf(),
            final(self)@.width == old(self)@.width,
            final(self)@.height == old(self)@.height,
            final(self)@.mine_count() == old(self)@.mine_count(),
            frame_preserved(old(self)@, final(self)@),
            cascade_closed(old(self)@, final(self)@),
            no_hidden_neighbor(final(self)@, origin_x as int, origin_y as int),
    {
        let ghost g0 = self@;
        let mut work: Vec<(usize, usize)> = Vec::new();
        self.push_neighbors(&mut work, origin_x, origin_y);
        while work.len() != 0
            invariant
                self@.wf(),
                g0.wf(),
                self@.width == g0.width,
                self@.height == g0.height,
                g0.in_bounds(origin_x as int, origin_y as int),
                self@.mine_count() == g0.mine_count(),
                frame_preserved(g0, self@),
                forall|i: int, j: int|
                    g0.in_bounds(i, j) ==> tile_is_mine(#[trigger] self@.at(i, j)) == tile_is_mine(
                        g0.at(i, j),
                    ),
                forall|x: int, y: int|
                    self@.neighbor_mines(x, y) == #[trigger] g0.neighbor_mines(x, y),
                forall|k: int|
                    0 <= k < work@.len() ==> g0.in_bounds(
                        (#[trigger] work@[k]).0 as int,
                        work@[k].1 as int,
                    ),
                pending_or_clear(g0, self@, work@),
                neighbor_settled(g0, self@, work@, origin_x as int, origin_y as int),
            decreases self@.hidden_safe_count(), work@.len(),
        {
            let ghost g_pre = self@;
            let ghost w_pre = work@;
            let p = work.pop().unwrap();
            let cx = p.0;
            let cy = p.1;
            let hidden_here = matches!(self.tile(cx, cy), Tile::HiddenMine(false));
            if hidden_here {
                let n = self.find_nearby(cx, cy);
                proof {
                    lemma_idx_bounds(self@, cx as int, cy as int);
                    lemma_update_at(self@, cx as int, cy as int, Tile::Near(n));
                    lemma_count_update(
                        self@.tiles,
                        self@.idx(cx as int, cy as int),
                        Tile::Near(n),
                        mine_pred(),
                    );
                    lemma_count_update(
                        self@.tiles,
                        self@.idx(cx as int, cy as int),
                        Tile::Near(n),
                        hidden_safe_pred(),
                    );
                }
                self.set_tile(cx, cy, Tile::Near(n));
                proof {
                    assert forall|i: int, j: int| g0.in_bounds(i, j) implies tile_is_mine(
                        #[trigger] self@.at(i, j),
                    ) == tile_is_mine(g0.at(i, j)) by {
                        if !(i == cx as int && j == cy as int) {
                            assert(self@.at(i, j) == g_pre.at(i, j));
                        }
                    }
                    lemma_neighbor_mines_preserved(g0, self@);
                    assert forall|i: int, j: int| g0.in_bounds(i, j) implies (#[trigger] self@.at(
                        i,
                        j,
                    )) == g0.at(i, j) || (g0.at(i, j) == Tile::HiddenMine(false) && self@.at(i, j)
                        == Tile::Near(g0.neighbor_mines(i, j) as usize)) by {
                        if i == cx as int && j == cy as int {
                            assert(g_pre.at(i, j) == Tile::HiddenMine(false));
                            assert(g0.at(i, j) == Tile::HiddenMine(false));
                            assert(n as nat == g_pre.neighbor_mines(i, j));
                            assert(self@.at(i, j) == Tile::Near(n));
                        } else {
                            assert(self@.at(i, j) == g_pre.at(i, j));
                        }
                    }
                }
                if n == 0 {
                    if !self.is_exposed(cx, cy) {
                        self.push_neighbors(&mut work, cx, cy);
                        proof {
                            assert(self@.at(cx as int, cy as int) == Tile::Near(0)
                                ==> neighbor_settled(g0, self@, work@, cx as int, cy as int));
                        }
                    } else {
                        proof {
                            lemma_exposed_no_hidden(self@, cx as int, cy as int);
                            assert(self@.at(cx as int, cy as int) == Tile::Near(0)
                                ==> neighbor_settled(g0, self@, work@, cx as int, cy as int));
                        }
                    }
                } else {
                    proof {
                        assert(self@.at(cx as int, cy as int) != Tile::Near(0));
                    }
                }
            } else {
                proof {
                    assert(self@ == g_pre);
                    assert(self@.at(cx as int, cy as int) != Tile::HiddenMine(false));
                    if g0.in_bounds(cx as int, cy as int) && g0.at(cx as int, cy as int)
                        == Tile::HiddenMine(false) && self@.at(cx as int, cy as int) == Tile::Near(
                        0,
                    ) {
                        assert(g_pre.at(cx as int, cy as int) == Tile::Near(0));
                        assert(neighbor_settled(g0, g_pre, w_pre, cx as int, cy as int));
                        lemma_settled_step(
                            g0,
                            g_pre,
                            self@,
                            w_pre,
                            work@,
                            cx as int,
                            cy as int,
                            cx as int,
                            cy as int,
                        );
                    }
                }
            }
            proof {
                let cxi = cx as int;
                let cyi = cy as int;
                assert forall|i: int, j: int|
                    g0.in_bounds(i, j) && g0.at(i, j) == Tile::HiddenMine(false) && (
                #[trigger] self@.at(i, j)) == Tile::Near(0) implies neighbor_settled(
                    g0,
                    self@,
                    work@,
                    i,
                    j,
                ) by {
                    if !(i == cxi && j == cyi) {
                        assert(self@.at(i, j) == g_pre.at(i, j));
                        assert(neighbor_settled(g0, g_pre, w_pre, i, j));
                        lemma_settled_step(g0, g_pre, self@, w_pre, work@, cxi, cyi, i, j);
                    }
                }
                assert(pending_or_clear(g0, self@, work@));
                lemma_settled_step(
                    g0,
                    g_pre,
                    self@,
                    w_pre,
                    work@,
                    cxi,
                    cyi,
                    origin_x as int,
                    origin_y as int,
                );
            }
        }
        proof {
            assert forall|a: int, b: int|
                adjacent(origin_x as int, origin_y as int, a, b) && self@.in_bounds(
                    a,
                    b,
                ) implies (#[trigger] self@.at(a, b)) != Tile::HiddenMine(false) by {
                assert(g0.in_bounds(a, b));
                assert(self@.at(a, b) != Tile::HiddenMine(false) || work_contains(work@, a, b));
            }
            assert forall|i: int, j: int|
                g0.in_bounds(i, j) && g0.at(i, j) == Tile::HiddenMine(false) && (
            #[trigger] self@.at(i, j)) == Tile::Near(0) implies no_hidden_neighbor(
                self@,
                i,
                j,
            ) by {
                assert(neighbor_settled(g0, self@, work@, i, j));
                assert forall|a: int, b: int|
                    adjacent(i, j, a, b) && self@.in_bounds(a, b) implies (#[trigger] self@.at(
                    a,
                    b,
                )) != Tile::HiddenMine(false) by {
                    assert(g0.in_bounds(a, b));
                    assert(self@.at(a, b) != Tile::HiddenMine(false) || work_contains(
                        work@,
                        a,
                        b,
                    ));
                }
            }
        }
    }

    /// Reveal the tile at `(x, y)`. Returns `true` exactly when a mine
    /// was hit, now or earlier, at that position: a hidden mine detonates
    /// to `Mined`, and a `Mined` tile keeps reporting `true`. Revealed
    /// and flagged tiles are no-ops; a hidden non-mine shows its neighbor
    /// mine count and, when that count is zero, cascades through its
    /// mine-free region.
    pub fn touch_tile(&mut self, x: &usize, y: &usize) -> (hit: bool)
        requires
            old(self)@.wf(),
            old(self)@.in_bounds(*x as int, *y as int),
        ensures
            final(self)@.wf(),
            final(self)@.width == old(self)@.width,
            final(self)@.height == old(self)@.height,
            final(self)@.mine_count() == old(self)@.mine_count(),
            hit == (old(self)@.at(*x as int, *y as int) is Mined || old(self)@.at(
                *x as int,
                *y as int,
            ) == Tile::HiddenMine(true)),
            (old(self)@.at(*x as int, *y as int) is Near || old(self)@.at(*x as int, *y as int)
                is Flagged || old(self)@.at(*x as int, *y as int) is Mined) ==> final(self)@
                == old(self)@,
            old(self)@.at(*x as int, *y as int) == Tile::HiddenMine(true) ==> final(self)@ == old(
                self,
            )@.update_at(*x as int, *y as int, Tile::Mined),
            old(self)@.at(*x as int, *y as int) == Tile::HiddenMine(false) ==> final(self)@.at(
                *x as int,
                *y as int,
            ) == Tile::Near(old(self)@.neighbor_mines(*x as int, *y as int) as usize)
                && frame_preserved(old(self)@, final(self)@) && cascade_closed(
                old(self)@,
                final(self)@,
            ),
            old(self)@.at(*x as int, *y as int) == Tile::HiddenMine(false) && old(
                self,
            )@.neighbor_mines(*x as int, *y as int) != 0 ==> final(self)@ == old(self)@.update_at(
                *x as int,
                *y as int,
                Tile::Near(old(self)@.neighbor_mines(*x as int, *y as int) as usize),
            ),
            old(self)@.at(*x as int, *y as int) == Tile::HiddenMine(false) && old(
                self,
            )@.neighbor_mines(*x as int, *y as int) == 0 && old(self)@.update_at(
                *x as int,
                *y as int,
                Tile::Near(0),
            ).exposed(*x as int, *y as int) ==> final(self)@ == old(self)@.update_at(
                *x as int,
                *y as int,
                Tile::Near(0),
            ),
    {
        let xv = *x;
        let yv = *y;
        let ghost g0 = self@;
        let t = self.tile(xv, yv);
        let hidden_true = matches!(t, Tile::HiddenMine(true));
        let hidden_false = matches!(t, Tile::HiddenMine(false));
        let was_mined = matches!(t, Tile::Mined);
        if hidden_true {
            proof {
                lemma_idx_bounds(self@, xv as int, yv as int);
                lemma_update_at(self@, xv as int, yv as int, Tile::Mined);
                lemma_count_update(
                    self@.tiles,
                    self@.idx(xv as int, yv as int),
                    Tile::Mined,
                    mine_pred(),
                );
            }
            self.set_tile(xv, yv, Tile::Mined);
            true
        } else if hidden_false {
            let n = self.find_nearby(xv, yv);
            proof {
                lemma_idx_bounds(self@, xv as int, yv as int);
                lemma_update_at(self@, xv as int, yv as int, Tile::Near(n));
                lemma_count_update(
                    self@.tiles,
                    self@.idx(xv as int, yv as int),
                    Tile::Near(n),
                    mine_pred(),
                );
            }
            self.set_tile(xv, yv, Tile::Near(n));
            let ghost g_mid = self@;
            proof {
                assert forall|i: int, j: int| g0.in_bounds(i, j) implies tile_is_mine(
                    #[trigger] g_mid.at(i, j),
                ) == tile_is_mine(g0.at(i, j)) by {
                    if !(i == xv as int && j == yv as int) {
                        assert(g_mid.at(i, j) == g0.at(i, j));
                    }
                }
                lemma_neighbor_mines_preserved(g0, g_mid);
            }
            if !self.is_exposed(xv, yv) && n == 0 {
                self.touch_nearby(xv, yv);
                proof {
                    assert forall|i: int, j: int| g0.in_bounds(i, j) implies (#[trigger] self@.at(
                        i,
                        j,
                    )) == g0.at(i, j) || (g0.at(i, j) == Tile::HiddenMine(false) && self@.at(i, j)
                        == Tile::Near(g0.neighbor_mines(i, j) as usize)) by {
                        if i == xv as int && j == yv as int {
                            assert(g_mid.at(i, j) == Tile::Near(n));
                            assert(self@.at(i, j) == Tile::Near(n));
                        } else {
                            assert(g_mid.at(i, j) == g0.at(i, j));
                        }
                    }
                    assert forall|i: int, j: int|
                        g0.in_bounds(i, j) && g0.at(i, j) == Tile::HiddenMine(false) && (
                    #[trigger] self@.at(i, j)) == Tile::Near(0) implies no_hidden_neighbor(
                        self@,
                        i,
                        j,
                    ) by {
                        if i == xv as int && j == yv as int {
                            assert(self@.at(i, j) == Tile::Near(n));
                        } else {
                            assert(g_mid.at(i, j) == Tile::HiddenMine(false));
                        }
                    }
                }
            } else {
                proof {
                    if n == 0 {
                        lemma_exposed_no_hidden(self@, xv as int, yv as int);
                    }
                    assert forall|i: int, j: int|
                        g0.in_bounds(i, j) && g0.at(i, j) == Tile::HiddenMine(false) && (
                    #[trigger] self@.at(i, j)) == Tile::Near(0) implies no_hidden_neighbor(
                        self@,
                        i,
                        j,
                    ) by {
                        if !(i == xv as int && j == yv as int) {
                            assert(self@.at(i, j) == g0.at(i, j));
                        }
                    }
                }
            }
            false
        } else {
            was_mined
        }
    }
}

} // verus!

