use tetris::block::{Block, BlockKind};
use tetris::grid::Grid;
use tetris::tiles::{cell_tile, color, Tile, CELL_SIZE, PALETTE_SIZE};

#[test]
fn tile_leaves_a_line_of_one_pixel() {
    assert_eq!(CELL_SIZE, 30);
    assert_eq!(cell_tile(0, 0, 0), Tile { x: 1, y: 1, width: 29, height: 29, color: 0 });
    assert_eq!(cell_tile(2, 3, 5), Tile { x: 91, y: 61, width: 29, height: 29, color: 5 });
    assert_eq!(cell_tile(19, 9, 7), Tile { x: 271, y: 571, width: 29, height: 29, color: 7 });
}

#[test]
fn grid_tiles_run_row_by_row() {
    let mut grid = Grid::new();
    grid.commit(2, 3, BlockKind::S);
    grid.commit(19, 9, BlockKind::Z);
    let tiles = grid.tiles();
    assert_eq!(tiles.len(), 200);
    for row in 0..20 {
        for col in 0..10 {
            let expected = cell_tile(row, col, grid.grid[row][col]);
            assert_eq!(tiles[row * 10 + col], expected);
        }
    }
    assert_eq!(tiles[23], Tile { x: 91, y: 61, width: 29, height: 29, color: 5 });
    assert_eq!(tiles[199].color, 7);
    assert_eq!(tiles[0].color, 0);
}

#[test]
fn block_tiles_have_the_colour_of_the_kind() {
    let mut block = Block::new(BlockKind::T);
    block.move_by(4, 1);
    // cells (col, row): (5,4) (4,5) (5,5) (6,5)
    assert_eq!(
        block.tiles(),
        vec![
            Tile { x: 151, y: 121, width: 29, height: 29, color: 6 },
            Tile { x: 121, y: 151, width: 29, height: 29, color: 6 },
            Tile { x: 151, y: 151, width: 29, height: 29, color: 6 },
            Tile { x: 181, y: 151, width: 29, height: 29, color: 6 },
        ]
    );
}

#[test]
fn palette_has_eight_colours() {
    assert_eq!(PALETTE_SIZE, 8);
    let expected: [(u8, u8, u8, u8); 8] = [
        (26, 32, 40, 255),
        (47, 230, 23, 255),
        (232, 18, 18, 255),
        (226, 116, 17, 255),
        (237, 234, 4, 255),
        (166, 0, 247, 255),
        (21, 204, 209, 255),
        (13, 64, 216, 255),
    ];
    for id in 0..8 {
        assert_eq!(color(id), expected[id]);
    }
}
