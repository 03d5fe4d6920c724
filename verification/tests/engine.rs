use game_of_life::{Grid, GridPos, State};

use State::{Dead, Live};

fn grid_of(text: &str) -> Grid {
    Grid::from_pattern(text.as_bytes()).expect("a well-formed pattern")
}

fn counts_of(grid: &Grid) -> Vec<usize> {
    (0..grid.cells().len()).map(|i| grid.count_live_neibos(i)).collect()
}

#[test]
fn test_count_live_neibos() {
    let f = Grid::new(3, 3);
    let live_neibos = (0..f.dim().x * f.dim().y)
        .map(|i| f.count_live_neibos(i as usize))
        .collect::<Vec<_>>();
    assert_eq!(live_neibos, vec![3, 5, 3, 5, 8, 5, 3, 5, 3]);
}

#[test]
fn new_grid_is_all_live() {
    let grid = Grid::new(4, 3);
    assert_eq!(grid.dim(), GridPos { x: 4, y: 3 });
    assert_eq!(grid.cells(), &vec![Live; 12]);
}

#[test]
fn new_dead_grid_is_all_dead() {
    let grid = Grid::new_dead(2, 5);
    assert_eq!(grid.dim(), GridPos { x: 2, y: 5 });
    assert_eq!(grid.cells(), &vec![Dead; 10]);
}

#[test]
fn dead_grid_stays_dead() {
    let mut grid = Grid::new_dead(6, 4);
    assert_eq!(counts_of(&grid), vec![0; 24]);
    grid.update_grid();
    assert_eq!(grid.cells(), &vec![Dead; 24]);
}

#[test]
fn index_and_position_are_inverse() {
    let grid = Grid::new(5, 3);
    for idx in 0..15 {
        let pos = grid.idx2pos(idx);
        assert!(pos.x < 5 && pos.y < 3);
        assert_eq!(grid.pos2idx(pos), idx);
    }
    for y in 0..3 {
        for x in 0..5 {
            let idx = grid.pos2idx(GridPos { x, y });
            assert!(idx < 15);
            assert_eq!(grid.idx2pos(idx), GridPos { x, y });
        }
    }
}

#[test]
fn index_is_column_plus_row_times_width() {
    let grid = Grid::new(7, 4);
    assert_eq!(grid.pos2idx(GridPos { x: 0, y: 0 }), 0);
    assert_eq!(grid.pos2idx(GridPos { x: 6, y: 0 }), 6);
    assert_eq!(grid.pos2idx(GridPos { x: 0, y: 1 }), 7);
    assert_eq!(grid.pos2idx(GridPos { x: 3, y: 2 }), 17);
    assert_eq!(grid.pos2idx(GridPos { x: 6, y: 3 }), 27);
    assert_eq!(grid.idx2pos(17), GridPos { x: 3, y: 2 });
    assert_eq!(grid.idx2pos(27), GridPos { x: 6, y: 3 });
}

#[test]
fn positions_beyond_sixteen_bits_of_index() {
    // 300 * 300 cells: more than a 16-bit index can name.
    let grid = Grid::new(300, 300);
    assert_eq!(grid.cells().len(), 90_000);
    assert_eq!(grid.idx2pos(89_999), GridPos { x: 299, y: 299 });
    assert_eq!(grid.idx2pos(70_000), GridPos { x: 100, y: 233 });
    assert_eq!(grid.pos2idx(GridPos { x: 100, y: 233 }), 70_000);
    assert_eq!(grid.count_live_neibos(70_000), 8);
    assert_eq!(grid.count_live_neibos(89_999), 3);
}

#[test]
fn live_cell_rule() {
    for n in [0, 1, 4, 5, 6, 7, 8] {
        assert_eq!(Grid::game_rules(&Live, n), Dead);
    }
    for n in [2, 3] {
        assert_eq!(Grid::game_rules(&Live, n), Live);
    }
}

#[test]
fn dead_cell_rule() {
    assert_eq!(Grid::game_rules(&Dead, 3), Live);
    for n in [0, 1, 2, 4, 5, 6, 7, 8] {
        assert_eq!(Grid::game_rules(&Dead, n), Dead);
    }
}

#[test]
fn single_cell_grid() {
    let mut grid = Grid::new(1, 1);
    assert_eq!(grid.count_live_neibos(0), 0);
    grid.update_grid();
    assert_eq!(grid.cells(), &vec![Dead]);
}

#[test]
fn single_row_is_clipped_not_wrapped() {
    let grid = Grid::new(4, 1);
    assert_eq!(counts_of(&grid), vec![1, 2, 2, 1]);
    let column = Grid::new(1, 4);
    assert_eq!(counts_of(&column), vec![1, 2, 2, 1]);
}

#[test]
fn neighbours_are_counted_without_the_cell_itself() {
    let grid = grid_of("0,0,0\n0,1,0\n0,0,0");
    assert_eq!(counts_of(&grid), vec![1, 1, 1, 1, 0, 1, 1, 1, 1]);
}

#[test]
fn edges_do_not_wrap_around() {
    // Live cells on the right edge must not be seen from the left edge.
    let grid = grid_of("0,0,0,1\n0,0,0,1\n0,0,0,1");
    assert_eq!(counts_of(&grid), vec![0, 0, 2, 1, 0, 0, 3, 2, 0, 0, 2, 1]);
}

#[test]
fn block_is_a_still_life() {
    let mut grid = grid_of("0,0,0,0\n0,1,1,0\n0,1,1,0\n0,0,0,0");
    let start = grid.cells().clone();
    for _ in 0..10 {
        grid.update_grid();
        assert_eq!(grid.cells(), &start);
    }
}

#[test]
fn block_in_a_corner_is_a_still_life() {
    let mut grid = grid_of("1,1,0\n1,1,0\n0,0,0");
    let start = grid.cells().clone();
    for _ in 0..5 {
        grid.update_grid();
        assert_eq!(grid.cells(), &start);
    }
}

#[test]
fn blinker_oscillates() {
    let horizontal = "0,0,0,0,0\n0,0,0,0,0\n0,1,1,1,0\n0,0,0,0,0\n0,0,0,0,0";
    let vertical = "0,0,0,0,0\n0,0,1,0,0\n0,0,1,0,0\n0,0,1,0,0\n0,0,0,0,0";
    let mut grid = grid_of(horizontal);
    grid.update_grid();
    assert_eq!(grid.cells(), grid_of(vertical).cells());
    grid.update_grid();
    assert_eq!(grid.cells(), grid_of(horizontal).cells());
}

#[test]
fn update_reads_only_the_old_generation() {
    // Updating in place, left to right, would kill the left cell of the row
    // first and then see a middle cell with a single neighbour.
    let mut grid = grid_of("0,0,0,0,0\n0,0,0,0,0\n0,1,1,1,0\n0,0,0,0,0\n0,0,0,0,0");
    let before = grid.cells().clone();
    let counts = counts_of(&grid);
    grid.update_grid();
    for idx in 0..before.len() {
        assert_eq!(grid.cells()[idx], Grid::game_rules(&before[idx], counts[idx]));
    }
    assert_eq!(grid.cells()[12], Live);
    assert_eq!(grid.cells()[7], Live);
    assert_eq!(grid.cells()[17], Live);
    assert_eq!(grid.cells()[11], Dead);
    assert_eq!(grid.cells()[13], Dead);
}

#[test]
fn all_live_three_by_three_leaves_the_corners() {
    let mut grid = Grid::new(3, 3);
    grid.update_grid();
    assert_eq!(grid.cells(), grid_of("1,0,1\n0,0,0\n1,0,1").cells());
    grid.update_grid();
    assert_eq!(grid.cells(), &vec![Dead; 9]);
}

#[test]
fn glider_moves_diagonally() {
    let mut grid = grid_of(
        "0,1,0,0,0,0\n0,0,1,0,0,0\n1,1,1,0,0,0\n0,0,0,0,0,0\n0,0,0,0,0,0\n0,0,0,0,0,0",
    );
    for _ in 0..4 {
        grid.update_grid();
    }
    let moved = grid_of(
        "0,0,0,0,0,0\n0,0,1,0,0,0\n0,0,0,1,0,0\n0,1,1,1,0,0\n0,0,0,0,0,0\n0,0,0,0,0,0",
    );
    assert_eq!(grid.cells(), moved.cells());
    assert_eq!(grid.dim(), GridPos { x: 6, y: 6 });
}

#[test]
fn update_keeps_the_dimensions() {
    let mut grid = Grid::new(7, 2);
    grid.update_grid();
    assert_eq!(grid.dim(), GridPos { x: 7, y: 2 });
    assert_eq!(grid.cells().len(), 14);
}
