//! What a front end needs to paint the game: the square of pixels of each
//! cell, and the palette that gives each kind its colour.

use crate::block::Block;
use crate::grid::{Grid, COLS, ROWS};
use vstd::prelude::*;

verus! {

/// Side length of a cell on the screen, in pixels.
pub const CELL_SIZE: usize = 30;

/// Number of colours of the palette: one for the empty cell, one for each
/// of the seven kinds.
pub const PALETTE_SIZE: usize = 8;

/// A square of pixels, and the place in the palette of the colour that
/// fills it.
#[derive(Clone, Copy, Debug, PartialEq, Eq, Structural)]
pub struct Tile {
    pub x: i32,
    pub y: i32,
    pub width: i32,
    pub height: i32,
    pub color: usize,
}

/// A cell's pixel coordinates can be held in an `i32`.
pub open spec fn paintable(row: int, col: int) -> bool {
    &&& 0 <= row && row * CELL_SIZE + 1 <= i32::MAX
    &&& 0 <= col && col * CELL_SIZE + 1 <= i32::MAX
}

/// The tile of the cell in row `row` and column `col`: the cell's square
/// without its upper and left edge, which are left to the background and
/// so draw the lines between the cells.
pub open spec fn tile_of(row: int, col: int, color: usize) -> Tile {
    Tile {
        x: (col * CELL_SIZE + 1) as i32,
        y: (row * CELL_SIZE + 1) as i32,
        width: (CELL_SIZE - 1) as i32,
        height: (CELL_SIZE - 1) as i32,
        color,
    }
}

/// The palette: red, green, blue and opacity of each colour.
pub open spec fn palette() -> Seq<(u8, u8, u8, u8)> {
    seq![
        (26u8, 32u8, 40u8, 255u8),
        (47u8, 230u8, 23u8, 255u8),
        (232u8, 18u8, 18u8, 255u8),
        (226u8, 116u8, 17u8, 255u8),
        (237u8, 234u8, 4u8, 255u8),
        (166u8, 0u8, 247u8, 255u8),
        (21u8, 204u8, 209u8, 255u8),
        (13u8, 64u8, 216u8, 255u8),
    ]
}

/// The colour at place `id` of the palette, as red, green, blue and opacity.
pub fn color(id: usize) -> (rgba: (u8, u8, u8, u8))
    requires
        id < PALETTE_SIZE,
    ensures
        rgba == palette()[id as int],
{
    let colors: [(u8, u8, u8, u8); 8] = [
        (26, 32, 40, 255),
        (47, 230, 23, 255),
        (232, 18, 18, 255),
        (226, 116, 17, 255),
        (237, 234, 4, 255),
        (166, 0, 247, 255),
        (21, 204, 209, 255),
        (13, 64, 216, 255),
    ];
    colors[id]
}

/// The tile of one cell.
pub fn cell_tile(row: usize, col: usize, color: usize) -> (tile: Tile)
    requires
        paintable(row as int, col as int),
    ensures
        tile == tile_of(row as int, col as int, color),
{
    Tile {
        x: (col * CELL_SIZE + 1) as i32,
        y: (row * CELL_SIZE + 1) as i32,
        width: (CELL_SIZE - 1) as i32,
        height: (CELL_SIZE - 1) as i32,
        color,
    }
}

impl Grid {
    /// The tiles of all cells of the playfield, row by row from the top,
    /// each with the number that its cell holds as its colour.
    pub fn tiles(&self) -> (tiles: Vec<Tile>)
        ensures
            tiles@.len() == ROWS * COLS,
            forall|r: int, c: int|
                0 <= r < ROWS && 0 <= c < COLS ==> #[trigger] tiles@[r * COLS + c] == tile_of(
                    r,
                    c,
                    self@[r][c],
                ),
    {
        let mut tiles: Vec<Tile> = Vec::new();
        let mut row: usize = 0;
        while row < ROWS
            invariant
                row <= ROWS,
                tiles@.len() == row * COLS,
                forall|r: int, c: int|
                    0 <= r < row && 0 <= c < COLS ==> #[trigger] tiles@[r * COLS + c] == tile_of(
                        r,
                        c,
                        self@[r][c],
                    ),
            decreases ROWS - row,
        {
            let mut col: usize = 0;
            while col < COLS
                invariant
                    row < ROWS,
                    col <= COLS,
                    tiles@.len() == row * COLS + col,
                    forall|r: int, c: int|
                        0 <= r < row && 0 <= c < COLS ==> #[trigger] tiles@[r * COLS + c]
                            == tile_of(r, c, self@[r][c]),
                    forall|c: int|
                        0 <= c < col ==> #[trigger] tiles@[row * COLS + c] == tile_of(
                            row as int,
                            c,
                            self@[row as int][c],
                        ),
                decreases COLS - col,
            {
                tiles.push(cell_tile(row, col, self.grid[row][col]));
                col += 1;
            }
            row += 1;
        }
        tiles
    }
}

impl Block {
    /// The tiles of the four cells of the piece, each with the number of the
    /// piece's kind as its colour.
    pub fn tiles(&self) -> (tiles: Vec<Tile>)
        requires
            self@.wf(),
            self@.representable(),
            forall|i: int| 0 <= i < 4 ==> paintable((#[trigger] self@.cell(i)).1, self@.cell(i).0),
        ensures
            tiles@.len() == 4,
            forall|i: int|
                0 <= i < 4 ==> #[trigger] tiles@[i] == tile_of(
                    self@.cell(i).1,
                    self@.cell(i).0,
                    self@.kind.spec_id() as usize,
                ),
    {
        let cells = self.get_cell_position();
        let color = self.kind().id();
        let mut tiles: Vec<Tile> = Vec::new();
        let mut i: usize = 0;
        while i < 4
            invariant
                i <= 4,
                color == self@.kind.spec_id(),
                tiles@.len() == i,
                forall|j: int|
                    0 <= j < 4 ==> (#[trigger] cells[j]).0 == self@.cell(j).0 && cells[j].1
                        == self@.cell(j).1,
                forall|j: int|
                    0 <= j < 4 ==> paintable((#[trigger] self@.cell(j)).1, self@.cell(j).0),
                forall|j: int|
                    0 <= j < i ==> #[trigger] tiles@[j] == tile_of(
                        self@.cell(j).1,
                        self@.cell(j).0,
                        self@.kind.spec_id() as usize,
                    ),
            decreases 4 - i,
        {
            let (col, row) = cells[i];
            assert(paintable(self@.cell(i as int).1, self@.cell(i as int).0));
            tiles.push(cell_tile(row as usize, col as usize, color));
            i += 1;
        }
        tiles
    }
}

} // verus!
