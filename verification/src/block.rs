//! Tetromino kinds, the table of their shapes, and the falling piece.

use vstd::prelude::*;

verus! {

/// The seven tetromino kinds.
#[derive(Clone, Copy, Debug, PartialEq, Eq, Structural)]
pub enum BlockKind {
    L,
    J,
    I,
    O,
    S,
    T,
    Z,
}

/// Four `(row, col)` offsets as a sequence.
pub open spec fn quad(a: (int, int), b: (int, int), c: (int, int), d: (int, int)) -> Seq<
    (int, int),
> {
    seq![a, b, c, d]
}

impl BlockKind {
    /// The number under which a locked cell of this kind is stored on the
    /// board. Zero is left for the empty cell.
    pub open spec fn spec_id(self) -> int {
        match self {
            BlockKind::L => 1,
            BlockKind::J => 2,
            BlockKind::I => 3,
            BlockKind::O => 4,
            BlockKind::S => 5,
            BlockKind::T => 6,
            BlockKind::Z => 7,
        }
    }

    /// The kind that is stored under `id`.
    pub open spec fn spec_from(id: int) -> BlockKind {
        if id == 1 {
            BlockKind::L
        } else if id == 2 {
            BlockKind::J
        } else if id == 3 {
            BlockKind::I
        } else if id == 4 {
            BlockKind::O
        } else if id == 5 {
            BlockKind::S
        } else if id == 6 {
            BlockKind::T
        } else {
            BlockKind::Z
        }
    }

    /// Side length of the square frame that holds every rotation of the kind.
    pub open spec fn frame(self) -> int {
        match self {
            BlockKind::I => 4,
            BlockKind::O => 2,
            _ => 3,
        }
    }

    /// The shape table: the four `(row, col)` offsets that the kind occupies
    /// within its frame in the given rotation state.
    pub open spec fn shape(self, rotation: int) -> Seq<(int, int)> {
        match self {
            BlockKind::L => if rotation == 0 {
                quad((0, 2), (1, 0), (1, 1), (1, 2))
            } else if rotation == 1 {
                quad((0, 1), (1, 1), (2, 1), (2, 2))
            } else if rotation == 2 {
                quad((1, 0), (1, 1), (1, 2), (2, 0))
            } else {
                quad((0, 0), (0, 1), (1, 1), (2, 1))
            },
            BlockKind::J => if rotation == 0 {
                quad((0, 0), (1, 0), (1, 1), (1, 2))
            } else if rotation == 1 {
                quad((0, 1), (0, 2), (1, 1), (2, 1))
            } else if rotation == 2 {
                quad((1, 0), (1, 1), (1, 2), (2, 2))
            } else {
                quad((0, 1), (1, 1), (2, 0), (2, 1))
            },
            BlockKind::I => if rotation == 0 {
                quad((1, 0), (1, 1), (1, 2), (1, 3))
            } else if rotation == 1 {
                quad((0, 2), (1, 2), (2, 2), (3, 2))
            } else if rotation == 2 {
                quad((2, 0), (2, 1), (2, 2), (2, 3))
            } else {
                quad((0, 1), (1, 1), (2, 1), (3, 1))
            },
            BlockKind::O => quad((0, 0), (0, 1), (1, 0), (1, 1)),
            BlockKind::S => if rotation == 0 {
                quad((0, 1), (0, 2), (1, 0), (1, 1))
            } else if rotation == 1 {
                quad((0, 1), (1, 1), (1, 2), (2, 2))
            } else if rotation == 2 {
                quad((1, 1), (1, 2), (2, 0), (2, 1))
            } else {
                quad((0, 0), (1, 0), (1, 1), (2, 1))
            },
            BlockKind::T => if rotation == 0 {
                quad((0, 1), (1, 0), (1, 1), (1, 2))
            } else if rotation == 1 {
                quad((0, 1), (1, 1), (1, 2), (2, 1))
            } else if rotation == 2 {
                quad((1, 0), (1, 1), (1, 2), (2, 1))
            } else {
                quad((0, 1), (1, 0), (1, 1), (2, 1))
            },
            BlockKind::Z => if rotation == 0 {
                quad((0, 0), (0, 1), (1, 1), (1, 2))
            } else if rotation == 1 {
                quad((0, 2), (1, 1), (1, 2), (2, 1))
            } else if rotation == 2 {
                quad((1, 0), (1, 1), (2, 1), (2, 2))
            } else {
                quad((0, 1), (1, 0), (1, 1), (2, 0))
            },
        }
    }

    /// Every rotation state of every kind has exactly four cells, all of them
    /// inside the kind's frame, and no two of them equal.
    pub proof fn lemma_shape_four_distinct_cells(self, rotation: int)
        requires
            0 <= rotation < 4,
        ensures
            self.shape(rotation).len() == 4,
            forall|i: int|
                0 <= i < 4 ==> 0 <= (#[trigger] self.shape(rotation)[i]).0 < self.frame() && 0
                    <= self.shape(rotation)[i].1 < self.frame(),
            forall|i: int, j: int|
                0 <= i < j < 4 ==> self.shape(rotation)[i] != self.shape(rotation)[j],
    {
    }

    /// The four rotation states of the square kind are the same shape.
    pub proof fn lemma_square_has_one_shape(rotation: int)
        ensures
            BlockKind::O.shape(rotation) == BlockKind::O.shape(0),
    {
    }

    /// The number under which a locked cell of this kind is stored.
    pub fn id(self) -> (id: usize)
        ensures
            id == self.spec_id(),
            1 <= id <= 7,
    {
        match self {
            BlockKind::L => 1,
            BlockKind::J => 2,
            BlockKind::I => 3,
            BlockKind::O => 4,
            BlockKind::S => 5,
            BlockKind::T => 6,
            BlockKind::Z => 7,
        }
    }

    /// The kind stored under `value`, which must be one of the seven numbers
    /// in use.
    pub fn from(value: usize) -> (kind: BlockKind)
        requires
            1 <= value <= 7,
        ensures
            kind == BlockKind::spec_from(value as int),
            kind.spec_id() == value,
    {
        match value {
            1 => BlockKind::L,
            2 => BlockKind::J,
            3 => BlockKind::I,
            4 => BlockKind::O,
            5 => BlockKind::S,
            6 => BlockKind::T,
            _ => BlockKind::Z,
        }
    }

    /// The shape table of the kind, one row of four `(row, col)` offsets for
    /// each rotation state.
    pub fn cells(&self) -> (table: [[(usize, usize); 4]; 4])
        ensures
            forall|r: int, i: int|
                0 <= r < 4 && 0 <= i < 4 ==> (#[trigger] table[r][i]).0 == self.shape(r)[i].0
                    && table[r][i].1 == self.shape(r)[i].1,
    {
        match self {
            BlockKind::L => [
                [(0, 2), (1, 0), (1, 1), (1, 2)],
                [(0, 1), (1, 1), (2, 1), (2, 2)],
                [(1, 0), (1, 1), (1, 2), (2, 0)],
                [(0, 0), (0, 1), (1, 1), (2, 1)],
            ],
            BlockKind::J => [
                [(0, 0), (1, 0), (1, 1), (1, 2)],
                [(0, 1), (0, 2), (1, 1), (2, 1)],
                [(1, 0), (1, 1), (1, 2), (2, 2)],
                [(0, 1), (1, 1), (2, 0), (2, 1)],
            ],
            BlockKind::I => [
                [(1, 0), (1, 1), (1, 2), (1, 3)],
                [(0, 2), (1, 2), (2, 2), (3, 2)],
                [(2, 0), (2, 1), (2, 2), (2, 3)],
                [(0, 1), (1, 1), (2, 1), (3, 1)],
            ],
            BlockKind::O => [
                [(0, 0), (0, 1), (1, 0), (1, 1)],
                [(0, 0), (0, 1), (1, 0), (1, 1)],
                [(0, 0), (0, 1), (1, 0), (1, 1)],
                [(0, 0), (0, 1), (1, 0), (1, 1)],
            ],
            BlockKind::S => [
                [(0, 1), (0, 2), (1, 0), (1, 1)],
                [(0, 1), (1, 1), (1, 2), (2, 2)],
                [(1, 1), (1, 2), (2, 0), (2, 1)],
                [(0, 0), (1, 0), (1, 1), (2, 1)],
            ],
            BlockKind::T => [
                [(0, 1), (1, 0), (1, 1), (1, 2)],
                [(0, 1), (1, 1), (1, 2), (2, 1)],
                [(1, 0), (1, 1), (1, 2), (2, 1)],
                [(0, 1), (1, 0), (1, 1), (2, 1)],
            ],
            BlockKind::Z => [
                [(0, 0), (0, 1), (1, 1), (1, 2)],
                [(0, 2), (1, 1), (1, 2), (2, 1)],
                [(1, 0), (1, 1), (2, 1), (2, 2)],
                [(0, 1), (1, 0), (1, 1), (2, 0)],
            ],
        }
    }
}

/// Draws a number between `low` and `high`, both included, from
/// `rand::random_range`, which samples the thread-local generator. Believed
/// of it: the number lies in the range it was given. The range must not be
/// empty, since the generator refuses an empty one.
#[verifier::external_body]
fn random_in_range(low: usize, high: usize) -> (value: usize)
    requires
        low <= high,
    ensures
        low <= value <= high,
{
    rand::random_range(low..=high)
}

impl BlockKind {
    /// A kind drawn at random, each of the seven being possible.
    pub fn random() -> (kind: BlockKind)
        ensures
            1 <= kind.spec_id() <= 7,
    {
        let id: usize = random_in_range(1, 7);
        BlockKind::from(id)
    }
}

/// The mathematical value of a piece: its kind, its rotation state and the
/// place of its frame's upper left corner on the board.
pub struct BlockView {
    pub kind: BlockKind,
    pub rotation: int,
    pub row_offset: int,
    pub col_offset: int,
}

impl BlockView {
    /// The rotation state is one of the four that the shape table knows.
    pub open spec fn wf(self) -> bool {
        0 <= self.rotation < 4
    }

    /// A fresh piece of the given kind: unrotated, in the top row, centred
    /// over the ten columns. The square's frame is narrower than the others,
    /// so it starts one column further right.
    pub open spec fn spawn(kind: BlockKind) -> BlockView {
        BlockView {
            kind,
            rotation: 0,
            row_offset: 0,
            col_offset: if kind == BlockKind::O {
                4
            } else {
                3
            },
        }
    }

    /// The piece shifted by `rows` down and `cols` to the right.
    pub open spec fn moved(self, rows: int, cols: int) -> BlockView {
        BlockView {
            row_offset: self.row_offset + rows,
            col_offset: self.col_offset + cols,
            ..self
        }
    }

    /// The piece in its next rotation state.
    pub open spec fn rotated_right(self) -> BlockView {
        BlockView { rotation: (self.rotation + 1) % 4, ..self }
    }

    /// The piece in its previous rotation state.
    pub open spec fn rotated_left(self) -> BlockView {
        BlockView { rotation: (self.rotation + 3) % 4, ..self }
    }

    /// The `i`-th board cell that the piece occupies, as `(col, row)`.
    pub open spec fn cell(self, i: int) -> (int, int) {
        (
            self.kind.shape(self.rotation)[i].1 + self.col_offset,
            self.kind.shape(self.rotation)[i].0 + self.row_offset,
        )
    }

    /// The four board cells that the piece occupies, each as `(col, row)`.
    pub open spec fn cells(self) -> Seq<(int, int)> {
        Seq::new(4, |i: int| self.cell(i))
    }

    /// The piece occupies the board cell in row `row` and column `col`.
    pub open spec fn covers(self, row: int, col: int) -> bool {
        exists|i: int| 0 <= i < 4 && self.cell(i) == (col, row)
    }

    /// Every coordinate of the four cells can be held in an `isize`.
    pub open spec fn representable(self) -> bool {
        forall|i: int|
            0 <= i < 4 ==> isize::MIN <= (#[trigger] self.cell(i)).0 <= isize::MAX && isize::MIN
                <= self.cell(i).1 <= isize::MAX
    }

    /// Each cell of the piece lies within three rows and three columns of
    /// the corner of its frame.
    pub proof fn lemma_cells_in_frame(self)
        ensures
            forall|i: int|
                0 <= i < 4 ==> self.col_offset <= (#[trigger] self.cell(i)).0 <= self.col_offset
                    + 3 && self.row_offset <= self.cell(i).1 <= self.row_offset + 3,
    {
    }

    /// Four turns in either direction bring a piece back to the rotation
    /// state, and so to the cells, that it started from.
    pub proof fn lemma_four_rotations_are_identity(self)
        requires
            self.wf(),
        ensures
            self.rotated_right().rotated_right().rotated_right().rotated_right() == self,
            self.rotated_left().rotated_left().rotated_left().rotated_left() == self,
            self.rotated_right().rotated_right().rotated_right().rotated_right().cells()
                == self.cells(),
            self.rotated_left().rotated_left().rotated_left().rotated_left().cells()
                == self.cells(),
    {
    }

    /// A turn to the right undoes a turn to the left, and the other way round.
    pub proof fn lemma_rotations_are_inverse(self)
        requires
            self.wf(),
        ensures
            self.rotated_right().wf(),
            self.rotated_left().wf(),
            self.rotated_right().rotated_left() == self,
            self.rotated_left().rotated_right() == self,
    {
    }

    /// A shift is undone by the opposite shift.
    pub proof fn lemma_moves_are_inverse(self, rows: int, cols: int)
        ensures
            self.moved(rows, cols).moved(-rows, -cols) == self,
            self.moved(rows, cols).wf() == self.wf(),
    {
    }
}

/// The falling piece.
#[derive(Clone, Copy, Debug, PartialEq, Eq, Structural)]
pub struct Block {
    kind: BlockKind,
    rotation_state: usize,
    row_offset: isize,
    col_offset: isize,
}

impl View for Block {
    type V = BlockView;

    closed spec fn view(&self) -> BlockView {
        BlockView {
            kind: self.kind,
            rotation: self.rotation_state as int,
            row_offset: self.row_offset as int,
            col_offset: self.col_offset as int,
        }
    }
}

impl Block {
    /// A fresh piece of the given kind at its starting place.
    pub fn new(kind: BlockKind) -> (block: Block)
        ensures
            block@ == BlockView::spawn(kind),
            block@.wf(),
    {
        let mut ret = Block { kind, rotation_state: 0, row_offset: 0, col_offset: 0 };
        match kind {
            BlockKind::O => ret.move_by(0, 4),
            BlockKind::I => ret.move_by(0, 3),
            _ => ret.move_by(0, 3),
        }
        ret
    }

    /// The kind of the piece.
    pub fn kind(&self) -> (kind: BlockKind)
        ensures
            kind == self@.kind,
    {
        self.kind
    }

    /// The rotation state of the piece.
    pub fn rotation_state(&self) -> (rotation: usize)
        ensures
            rotation == self@.rotation,
    {
        self.rotation_state
    }

    /// The board row of the upper edge of the piece's frame.
    pub fn row_offset(&self) -> (row: isize)
        ensures
            row == self@.row_offset,
    {
        self.row_offset
    }

    /// The board column of the left edge of the piece's frame.
    pub fn col_offset(&self) -> (col: isize)
        ensures
            col == self@.col_offset,
    {
        self.col_offset
    }

    /// Shifts the piece by `rows` down and `cols` to the right. Nothing is
    /// checked against a board: that is the caller's part.
    pub fn move_by(&mut self, rows: isize, cols: isize)
        requires
            isize::MIN <= old(self)@.row_offset + rows <= isize::MAX,
            isize::MIN <= old(self)@.col_offset + cols <= isize::MAX,
        ensures
            final(self)@ == old(self)@.moved(rows as int, cols as int),
    {
        self.row_offset += rows;
        self.col_offset += cols;
    }

    /// Turns the piece into its next rotation state.
    pub fn rotate_right(&mut self)
        requires
            old(self)@.wf(),
        ensures
            final(self)@ == old(self)@.rotated_right(),
            final(self)@.wf(),
    {
        self.rotation_state = (self.rotation_state + 1) % 4;
    }

    /// Turns the piece into its previous rotation state.
    pub fn rotate_left(&mut self)
        requires
            old(self)@.wf(),
        ensures
            final(self)@ == old(self)@.rotated_left(),
            final(self)@.wf(),
    {
        self.rotation_state = (self.rotation_state + 3) % 4;
    }

    /// The four board cells that the piece occupies, each as `(col, row)`.
    pub fn get_cell_position(&self) -> (cells: [(isize, isize); 4])
        requires
            self@.wf(),
            self@.representable(),
        ensures
            forall|i: int|
                0 <= i < 4 ==> (#[trigger] cells[i]).0 == self@.cell(i).0 && cells[i].1
                    == self@.cell(i).1,
    {
        let table = self.kind.cells();
        let shape = table[self.rotation_state];
        let mut cells: [(isize, isize); 4] = [(0, 0); 4];
        let mut i: usize = 0;
        while i < 4
            invariant
                i <= 4,
                self@.wf(),
                self@.representable(),
                forall|j: int|
                    0 <= j < 4 ==> (#[trigger] shape[j]).0 == self@.kind.shape(self@.rotation)[j].0
                        && shape[j].1 == self@.kind.shape(self@.rotation)[j].1,
                forall|j: int|
                    0 <= j < i ==> (#[trigger] cells[j]).0 == self@.cell(j).0 && cells[j].1
                        == self@.cell(j).1,
            decreases 4 - i,
        {
            let (row, col) = shape[i];
            proof {
                self@.kind.lemma_shape_four_distinct_cells(self@.rotation);
                assert(self@.cell(i as int).0 == col + self.col_offset);
            }
            cells[i] = (col as isize + self.col_offset, row as isize + self.row_offset);
            i += 1;
        }
        cells
    }
}

} // verus!
