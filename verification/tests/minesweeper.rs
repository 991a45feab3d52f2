use rust_minesweeper::Board;
use rust_minesweeper::Error;
use rust_minesweeper::Tile;

/// Count the mines a board reports through its public tile accessor.
fn count_mines(board: &Board) -> usize {
    let mut mines = 0;
    for x in 0..board.width() {
        for y in 0..board.height() {
            if board.tile(x, y).is_mine() {
                mines += 1;
            }
        }
    }
    mines
}

/// Column-major helper: build a width*height grid of hidden tiles with
/// mines exactly at the given coordinates.
fn hidden_grid(width: usize, height: usize, mines: &[(usize, usize)]) -> Vec<Tile> {
    let mut tiles = Vec::new();
    for x in 0..width {
        for y in 0..height {
            tiles.push(Tile::HiddenMine(mines.contains(&(x, y))));
        }
    }
    tiles
}

#[test]
fn construction_10x10_10_succeeds() {
    let board = Board::new(&10, &10, &10).unwrap();
    assert_eq!(board.width(), 10);
    assert_eq!(board.height(), 10);
    assert!(board.well_formed());
    assert_eq!(count_mines(&board), 10);
}

#[test]
fn construction_2x2_5_fails() {
    let result = Board::new(&2, &2, &5);
    assert!(matches!(result, Err(Error::InvalidConfiguration)));
}

#[test]
fn construction_fails_whenever_mines_exceed_capacity() {
    assert!(matches!(Board::new(&3, &3, &10), Err(Error::InvalidConfiguration)));
    assert!(matches!(Board::new(&0, &0, &1), Err(Error::InvalidConfiguration)));
    assert!(matches!(Board::new(&1, &7, &8), Err(Error::InvalidConfiguration)));
}

#[test]
fn generation_counts_and_dimensions() {
    for &(w, h, m) in &[(4usize, 3usize, 5usize), (1, 1, 0), (1, 1, 1), (5, 5, 25), (7, 2, 0)] {
        let board = Board::new(&w, &h, &m).unwrap();
        assert_eq!(board.width(), w);
        assert_eq!(board.height(), h);
        assert!(board.well_formed());
        assert_eq!(count_mines(&board), m);
    }
}

#[test]
fn generation_leaves_every_tile_unrevealed() {
    let board = Board::new(&6, &4, &9).unwrap();
    for x in 0..6 {
        for y in 0..4 {
            assert!(matches!(board.tile(x, y), Tile::HiddenMine(_)));
        }
    }
}

#[test]
fn empty_board_construction() {
    let board = Board::new(&0, &0, &0).unwrap();
    assert_eq!(board.width(), 0);
    assert_eq!(board.height(), 0);
}

#[test]
fn from_tiles_rejects_wrong_layout_size() {
    let tiles = vec![
        Tile::HiddenMine(false),
        Tile::HiddenMine(false),
        Tile::HiddenMine(false),
    ];
    assert!(matches!(Board::from_tiles(tiles, 2, 2), Err(Error::InvalidConfiguration)));
}

#[test]
fn touching_near_mined_or_flagged_is_a_no_op() {
    // 2x2, column-major: (0,0)=Near(1), (0,1)=Flagged over a mine,
    // (1,0)=Mined, (1,1)=hidden mine.
    let tiles = vec![
        Tile::Near(1),
        Tile::Flagged(Box::new(Tile::HiddenMine(true))),
        Tile::Mined,
        Tile::HiddenMine(true),
    ];
    let mut board = Board::from_tiles(tiles, 2, 2).unwrap();

    assert!(!board.touch_tile(&0, &0));
    assert!(matches!(board.tile(0, 0), Tile::Near(1)));

    assert!(!board.touch_tile(&0, &1));
    assert!(matches!(board.tile(0, 1), Tile::Flagged(_)));

    assert!(board.touch_tile(&1, &0));
    assert!(matches!(board.tile(1, 0), Tile::Mined));

    // The untouched hidden mine is still untouched.
    assert!(matches!(board.tile(1, 1), Tile::HiddenMine(true)));
}

#[test]
fn touching_a_hidden_mine_detonates_it() {
    let tiles = hidden_grid(2, 2, &[(1, 1)]);
    let mut board = Board::from_tiles(tiles, 2, 2).unwrap();

    assert!(board.touch_tile(&1, &1));
    assert!(matches!(board.tile(1, 1), Tile::Mined));

    // Touching again reports the hit again and changes nothing.
    assert!(board.touch_tile(&1, &1));
    assert!(matches!(board.tile(1, 1), Tile::Mined));
}

#[test]
fn adjacency_count_on_3x3_with_two_corner_mines() {
    let tiles = hidden_grid(3, 3, &[(0, 0), (2, 2)]);
    let mut board = Board::from_tiles(tiles, 3, 3).unwrap();

    assert!(!board.touch_tile(&1, &1));
    assert!(matches!(board.tile(1, 1), Tile::Near(2)));
}

#[test]
fn adjacency_excludes_out_of_range_neighbors() {
    // A corner tile has only 3 neighbors; mines elsewhere must not leak in.
    let tiles = hidden_grid(3, 3, &[(0, 1), (1, 0), (1, 1), (2, 2)]);
    let mut board = Board::from_tiles(tiles, 3, 3).unwrap();

    assert!(!board.touch_tile(&0, &0));
    assert!(matches!(board.tile(0, 0), Tile::Near(3)));
}

#[test]
fn cascade_reveals_entire_mine_free_board() {
    for x in 1..9usize {
        for y in 1..9usize {
            let mut board = Board::new(&10, &10, &0).unwrap();
            assert!(!board.touch_tile(&x, &y));
            for i in 0..10 {
                for j in 0..10 {
                    assert!(matches!(board.tile(i, j), Tile::Near(0)));
                }
            }
        }
    }
}

#[test]
fn cascade_stops_at_the_mine_frontier() {
    let tiles = hidden_grid(3, 3, &[(2, 2)]);
    let mut board = Board::from_tiles(tiles, 3, 3).unwrap();

    assert!(!board.touch_tile(&0, &0));
    assert!(matches!(board.tile(0, 0), Tile::Near(0)));
    assert!(matches!(board.tile(0, 1), Tile::Near(0)));
    assert!(matches!(board.tile(0, 2), Tile::Near(0)));
    assert!(matches!(board.tile(1, 0), Tile::Near(0)));
    assert!(matches!(board.tile(2, 0), Tile::Near(0)));
    assert!(matches!(board.tile(1, 1), Tile::Near(1)));
    assert!(matches!(board.tile(1, 2), Tile::Near(1)));
    assert!(matches!(board.tile(2, 1), Tile::Near(1)));
    assert!(matches!(board.tile(2, 2), Tile::HiddenMine(true)));
}

#[test]
fn cascade_leaves_flags_in_place() {
    let mut tiles = hidden_grid(3, 3, &[]);
    // Column-major position of (0,1) on a height-3 grid.
    tiles[1] = Tile::Flagged(Box::new(Tile::HiddenMine(false)));
    let mut board = Board::from_tiles(tiles, 3, 3).unwrap();

    assert!(!board.touch_tile(&2, &2));
    assert!(matches!(board.tile(0, 1), Tile::Flagged(_)));
    for x in 0..3 {
        for y in 0..3 {
            if !(x == 0 && y == 1) {
                assert!(matches!(board.tile(x, y), Tile::Near(0)));
            }
        }
    }
}

#[test]
fn reveal_without_cascade_when_count_is_positive() {
    let tiles = hidden_grid(2, 2, &[(0, 0)]);
    let mut board = Board::from_tiles(tiles, 2, 2).unwrap();

    assert!(!board.touch_tile(&1, &1));
    assert!(matches!(board.tile(1, 1), Tile::Near(1)));
    // The neighbors stay hidden: a positive count never cascades.
    assert!(matches!(board.tile(0, 1), Tile::HiddenMine(false)));
    assert!(matches!(board.tile(1, 0), Tile::HiddenMine(false)));
    assert!(matches!(board.tile(0, 0), Tile::HiddenMine(true)));
}

#[test]
fn mine_count_is_preserved_by_reveals() {
    let tiles = hidden_grid(4, 4, &[(0, 0), (3, 1), (2, 3)]);
    let mut board = Board::from_tiles(tiles, 4, 4).unwrap();
    assert_eq!(count_mines(&board), 3);

    board.touch_tile(&1, &2);
    assert_eq!(count_mines(&board), 3);

    board.touch_tile(&0, &0);
    assert_eq!(count_mines(&board), 3);
}
