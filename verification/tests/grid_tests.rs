use tetris::block::BlockKind;
use tetris::grid::{Grid, COLS, ROWS};

fn fill_row(grid: &mut Grid, row: isize, kind: BlockKind) {
    for col in 0..10 {
        grid.commit(row, col, kind);
    }
}

#[test]
fn new_grid_is_empty() {
    let grid = Grid::new();
    assert_eq!(ROWS, 20);
    assert_eq!(COLS, 10);
    assert_eq!(grid.grid, [[0; 10]; 20]);
    assert!(grid.is_well_formed());
    assert!(!grid.has_full_row());
}

#[test]
fn outside_is_everything_but_twenty_rows_of_ten() {
    let grid = Grid::new();
    for row in -30isize..50 {
        for col in -30isize..50 {
            let inside = (0..20).contains(&row) && (0..10).contains(&col);
            assert_eq!(grid.is_cell_outside(row, col), !inside, "({}, {})", row, col);
        }
    }
}

#[test]
fn outside_at_the_edges() {
    let grid = Grid::new();
    assert!(!grid.is_cell_outside(0, 0));
    assert!(!grid.is_cell_outside(19, 9));
    assert!(grid.is_cell_outside(-1, 0));
    assert!(grid.is_cell_outside(0, -1));
    assert!(grid.is_cell_outside(20, 0));
    assert!(grid.is_cell_outside(0, 10));
    assert!(grid.is_cell_outside(isize::MIN, 3));
    assert!(grid.is_cell_outside(3, isize::MAX));
}

#[test]
fn commit_writes_the_kind_id_to_one_cell() {
    let mut grid = Grid::new();
    grid.commit(7, 2, BlockKind::S);
    let mut expected = [[0usize; 10]; 20];
    expected[7][2] = 5;
    assert_eq!(grid.grid, expected);
    assert!(!grid.is_cell_empty(7, 2));
    assert!(grid.is_cell_empty(7, 3));
    assert!(grid.is_cell_empty(2, 7));
    // a second write to the cell replaces the first
    grid.commit(7, 2, BlockKind::L);
    expected[7][2] = 1;
    assert_eq!(grid.grid, expected);
}

#[test]
fn row_is_full_only_without_an_empty_cell() {
    let mut grid = Grid::new();
    assert!(!grid.is_row_full(4));
    for col in 0..9 {
        grid.commit(4, col, BlockKind::T);
    }
    assert!(!grid.is_row_full(4));
    grid.commit(4, 9, BlockKind::J);
    assert!(grid.is_row_full(4));
    assert!(!grid.is_row_full(3));
    assert!(grid.has_full_row());
}

#[test]
fn clear_row_empties_one_row() {
    let mut grid = Grid::new();
    fill_row(&mut grid, 5, BlockKind::I);
    fill_row(&mut grid, 6, BlockKind::O);
    grid.clear_row(5);
    let mut expected = [[0usize; 10]; 20];
    expected[6] = [4; 10];
    assert_eq!(grid.grid, expected);
}

#[test]
fn move_down_moves_one_row_and_leaves_it_empty() {
    let mut grid = Grid::new();
    grid.commit(3, 1, BlockKind::L);
    grid.commit(3, 8, BlockKind::Z);
    grid.commit(2, 0, BlockKind::T);
    grid.commit(5, 5, BlockKind::S);
    grid.move_down(3, 2);
    let mut expected = [[0usize; 10]; 20];
    expected[2][0] = 6;
    expected[5][1] = 1;
    expected[5][8] = 7;
    assert_eq!(grid.grid, expected);
}

#[test]
fn move_down_past_the_floor_changes_nothing() {
    let mut grid = Grid::new();
    grid.commit(18, 4, BlockKind::L);
    let before = grid.grid;
    grid.move_down(18, 2);
    assert_eq!(grid.grid, before);
    grid.move_down(25, 1);
    assert_eq!(grid.grid, before);
}

#[test]
fn clearing_without_a_full_row_changes_nothing() {
    let mut grid = Grid::new();
    grid.commit(19, 0, BlockKind::L);
    grid.commit(19, 9, BlockKind::J);
    grid.commit(18, 4, BlockKind::I);
    grid.commit(0, 0, BlockKind::Z);
    for col in 0..9 {
        grid.commit(10, col, BlockKind::O);
    }
    let before = grid.grid;
    assert_eq!(grid.clear_full_rows(), 0);
    assert_eq!(grid.grid, before);
}

#[test]
fn clearing_the_empty_grid_changes_nothing() {
    let mut grid = Grid::new();
    assert_eq!(grid.clear_full_rows(), 0);
    assert_eq!(grid.grid, [[0; 10]; 20]);
}

#[test]
fn clearing_one_full_row_shifts_the_rows_above_by_one() {
    let mut grid = Grid::new();
    fill_row(&mut grid, 19, BlockKind::T);
    grid.commit(18, 0, BlockKind::L);
    grid.commit(18, 1, BlockKind::L);
    grid.commit(17, 5, BlockKind::J);
    grid.commit(16, 9, BlockKind::S);
    grid.commit(0, 3, BlockKind::Z);
    assert_eq!(grid.clear_full_rows(), 1);
    let mut expected = [[0usize; 10]; 20];
    expected[19][0] = 1;
    expected[19][1] = 1;
    expected[18][5] = 2;
    expected[17][9] = 5;
    expected[1][3] = 7;
    assert_eq!(grid.grid, expected);
    assert_eq!(grid.grid[0], [0; 10]);
}

#[test]
fn clearing_one_full_row_under_empty_rows_leaves_it_empty() {
    let mut grid = Grid::new();
    fill_row(&mut grid, 19, BlockKind::I);
    assert_eq!(grid.clear_full_rows(), 1);
    assert_eq!(grid.grid, [[0; 10]; 20]);
}

#[test]
fn clearing_a_full_row_in_the_middle_keeps_the_rows_below() {
    let mut grid = Grid::new();
    grid.commit(19, 2, BlockKind::O);
    grid.commit(12, 6, BlockKind::O);
    fill_row(&mut grid, 11, BlockKind::S);
    grid.commit(10, 7, BlockKind::Z);
    assert_eq!(grid.clear_full_rows(), 1);
    let mut expected = [[0usize; 10]; 20];
    expected[19][2] = 4;
    expected[12][6] = 4;
    expected[11][7] = 7;
    assert_eq!(grid.grid, expected);
}

#[test]
fn clearing_full_rows_that_are_apart() {
    let mut grid = Grid::new();
    fill_row(&mut grid, 19, BlockKind::T);
    grid.commit(18, 3, BlockKind::L);
    fill_row(&mut grid, 17, BlockKind::J);
    grid.commit(16, 4, BlockKind::I);
    grid.commit(15, 5, BlockKind::O);
    assert_eq!(grid.clear_full_rows(), 2);
    let mut expected = [[0usize; 10]; 20];
    expected[19][3] = 1;
    expected[18][4] = 3;
    expected[17][5] = 4;
    assert_eq!(grid.grid, expected);
}

#[test]
fn clearing_four_rows_at_once() {
    let mut grid = Grid::new();
    for row in 16..20 {
        fill_row(&mut grid, row, BlockKind::I);
    }
    grid.commit(15, 0, BlockKind::Z);
    grid.commit(14, 9, BlockKind::S);
    assert_eq!(grid.clear_full_rows(), 4);
    let mut expected = [[0usize; 10]; 20];
    expected[19][0] = 7;
    expected[18][9] = 5;
    assert_eq!(grid.grid, expected);
}

#[test]
fn clearing_a_grid_of_full_rows_empties_it() {
    let mut grid = Grid::new();
    for row in 0..20 {
        fill_row(&mut grid, row, BlockKind::L);
    }
    assert_eq!(grid.clear_full_rows(), 20);
    assert_eq!(grid.grid, [[0; 10]; 20]);
}

#[test]
fn clearing_the_top_row() {
    let mut grid = Grid::new();
    fill_row(&mut grid, 0, BlockKind::J);
    grid.commit(1, 1, BlockKind::T);
    assert_eq!(grid.clear_full_rows(), 1);
    let mut expected = [[0usize; 10]; 20];
    expected[1][1] = 6;
    assert_eq!(grid.grid, expected);
}

#[test]
fn well_formed_means_cells_up_to_seven() {
    let mut grid = Grid::new();
    grid.grid[3][3] = 7;
    assert!(grid.is_well_formed());
    grid.grid[19][9] = 8;
    assert!(!grid.is_well_formed());
}
