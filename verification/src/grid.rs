//! The playfield: a fixed grid of cells, and the clearing of its full rows.

use crate::block::BlockKind;
use vstd::prelude::*;

verus! {

/// Number of rows of the playfield.
pub const ROWS: usize = 20;

/// Number of columns of the playfield.
pub const COLS: usize = 10;

/// The playfield as a sequence of rows, the top row first. A cell holds zero
/// when it is empty, and else the number of the kind that was locked there.
pub type Board = Seq<Seq<usize>>;

/// The board has the playfield's fixed size.
pub open spec fn is_board(board: Board) -> bool {
    &&& board.len() == ROWS
    &&& forall|r: int| 0 <= r < ROWS ==> (#[trigger] board[r]).len() == COLS
}

/// Every cell of the board is empty or holds the number of one of the seven
/// kinds.
pub open spec fn cells_in_range(board: Board) -> bool {
    forall|r: int, c: int| 0 <= r < ROWS && 0 <= c < COLS ==> #[trigger] board[r][c] <= 7
}

/// The place `(row, col)` is not on the playfield.
pub open spec fn cell_outside(row: int, col: int) -> bool {
    !(0 <= row < ROWS && 0 <= col < COLS)
}

/// A row without a locked cell.
pub open spec fn empty_row() -> Seq<usize> {
    Seq::new(COLS as nat, |c: int| 0usize)
}

/// The playfield without a locked cell.
pub open spec fn empty_board() -> Board {
    Seq::new(ROWS as nat, |r: int| empty_row())
}

/// No cell of the row is empty.
pub open spec fn row_full(row: Seq<usize>) -> bool {
    forall|c: int| 0 <= c < row.len() ==> row[c] != 0
}

/// No row of the board is full.
pub open spec fn no_full_rows(board: Board) -> bool {
    forall|r: int| 0 <= r < board.len() ==> !row_full(#[trigger] board[r])
}

/// The test that picks the full rows.
pub open spec fn full_rows() -> spec_fn(Seq<usize>) -> bool {
    |row: Seq<usize>| row_full(row)
}

/// The test that picks the rows with an empty cell.
pub open spec fn open_rows() -> spec_fn(Seq<usize>) -> bool {
    |row: Seq<usize>| !row_full(row)
}

/// The number of full rows of the board.
pub open spec fn full_count(board: Board) -> nat {
    board.filter(full_rows()).len()
}

/// The board after its full rows are taken out: the other rows keep their
/// order and sink to the bottom, and as many empty rows as were taken out
/// come in at the top.
pub open spec fn compacted(board: Board) -> Board {
    Seq::new(full_count(board), |r: int| empty_row()) + board.filter(open_rows())
}

/// The board with `value` written to the cell in row `row` and column `col`.
pub open spec fn with_cell(board: Board, row: int, col: int, value: usize) -> Board {
    board.update(row, board[row].update(col, value))
}

/// Filtering a sequence with one more element in front: the element stays
/// in front if it passes the test, and is dropped if it does not.
pub proof fn lemma_filter_front<A>(x: A, rest: Seq<A>, pred: spec_fn(A) -> bool)
    ensures
        (seq![x] + rest).filter(pred) == if pred(x) {
            seq![x] + rest.filter(pred)
        } else {
            rest.filter(pred)
        },
{
    Seq::filter_distributes_over_add(seq![x], rest, pred);
    reveal_with_fuel(Seq::filter, 2);
    assert(seq![x].drop_last() =~= Seq::<A>::empty());
    assert(seq![x].filter(pred) =~= if pred(x) {
        seq![x]
    } else {
        Seq::<A>::empty()
    });
    assert(Seq::<A>::empty() + rest.filter(pred) =~= rest.filter(pred));
}

/// Filtering the first `n` elements of a sequence, by the last of them.
pub proof fn lemma_filter_prefix_step<A>(s: Seq<A>, n: int, pred: spec_fn(A) -> bool)
    requires
        0 < n <= s.len(),
    ensures
        s.subrange(0, n).filter(pred) == if pred(s[n - 1]) {
            s.subrange(0, n - 1).filter(pred).push(s[n - 1])
        } else {
            s.subrange(0, n - 1).filter(pred)
        },
{
    reveal(Seq::filter);
    assert(s.subrange(0, n).drop_last() =~= s.subrange(0, n - 1));
}

/// A test that every element passes keeps the sequence as it is, and one
/// that no element passes leaves nothing of it.
pub proof fn lemma_filter_all_or_none<A>(s: Seq<A>, pred: spec_fn(A) -> bool)
    ensures
        (forall|i: int| 0 <= i < s.len() ==> pred(#[trigger] s[i])) ==> s.filter(pred) == s,
        (forall|i: int| 0 <= i < s.len() ==> !pred(#[trigger] s[i])) ==> s.filter(pred)
            == Seq::<A>::empty(),
    decreases s.len(),
{
    reveal(Seq::filter);
    if s.len() > 0 {
        lemma_filter_all_or_none(s.drop_last(), pred);
        if forall|i: int| 0 <= i < s.len() ==> pred(#[trigger] s[i]) {
            assert forall|i: int| 0 <= i < s.drop_last().len() implies pred(
                #[trigger] s.drop_last()[i],
            ) by {
                assert(s.drop_last()[i] == s[i]);
            }
            assert(s.drop_last().push(s.last()) =~= s);
        }
        if forall|i: int| 0 <= i < s.len() ==> !pred(#[trigger] s[i]) {
            assert forall|i: int| 0 <= i < s.drop_last().len() implies !pred(
                #[trigger] s.drop_last()[i],
            ) by {
                assert(s.drop_last()[i] == s[i]);
            }
        }
    } else {
        assert(s =~= Seq::<A>::empty());
    }
}

/// The number of full rows among the first `n` rows, by the last of them.
pub proof fn lemma_full_count_step(board: Board, n: int)
    requires
        0 <= n <= board.len(),
    ensures
        full_count(board.subrange(0, n)) == if n == 0 {
            0
        } else {
            full_count(board.subrange(0, n - 1)) + if row_full(board[n - 1]) {
                1nat
            } else {
                0nat
            }
        },
{
    if n == 0 {
        reveal(Seq::filter);
    } else {
        lemma_filter_prefix_step(board, n, full_rows());
    }
}

/// Every row is either full or has an empty cell, so the two kinds of rows
/// add up to the board.
pub proof fn lemma_full_and_open_rows(board: Board)
    ensures
        board.filter(full_rows()).len() + board.filter(open_rows()).len() == board.len(),
    decreases board.len(),
{
    reveal(Seq::filter);
    if board.len() > 0 {
        lemma_full_and_open_rows(board.drop_last());
    }
}

/// Clearing the full rows leaves a board of the playfield's size without a
/// full row, every row of which is empty or a row that the board had.
pub proof fn lemma_compacted_keeps_open_rows(board: Board)
    requires
        is_board(board),
    ensures
        full_count(board) <= ROWS,
        is_board(compacted(board)),
        no_full_rows(compacted(board)),
        cells_in_range(board) ==> cells_in_range(compacted(board)),
{
    let kept = board.filter(open_rows());
    let after = compacted(board);
    lemma_full_and_open_rows(board);
    assert forall|r: int| 0 <= r < ROWS implies (#[trigger] after[r]).len() == COLS && !row_full(
        after[r],
    ) && (cells_in_range(board) ==> forall|c: int| 0 <= c < COLS ==> after[r][c] <= 7) by {
        if r < full_count(board) {
            assert(after[r] == empty_row());
            assert(after[r][0] == 0);
        } else {
            let k = r - full_count(board);
            assert(after[r] == kept[k]);
            board.lemma_filter_pred(open_rows(), k);
            assert(kept.contains(kept[k]));
            board.lemma_filter_contains_rev(open_rows(), kept[k]);
            let j = choose|j: int| 0 <= j < board.len() && board[j] == kept[k];
            assert(after[r] == board[j]);
        }
    }
}

/// A board without a full row is left as it is when its full rows are
/// cleared, and the number of rows cleared is zero.
pub proof fn lemma_without_full_rows(board: Board)
    requires
        no_full_rows(board),
    ensures
        full_count(board) == 0,
        compacted(board) == board,
{
    lemma_filter_all_or_none(board, full_rows());
    lemma_filter_all_or_none(board, open_rows());
    assert(compacted(board) =~= board);
}

/// On a board whose full rows are `n` rows that lie together, `first` being
/// the topmost of them, clearing counts `n` rows, puts `n` empty rows at the
/// top, moves every row above the full ones `n` rows down, and leaves the
/// rows below them where they are.
pub proof fn lemma_full_rows_together(board: Board, first: int, n: int)
    requires
        is_board(board),
        0 <= first,
        0 <= n,
        first + n <= ROWS,
        forall|r: int|
            0 <= r < ROWS ==> (row_full(#[trigger] board[r]) <==> first <= r < first + n),
    ensures
        full_count(board) == n,
        is_board(compacted(board)),
        forall|r: int| 0 <= r < n ==> #[trigger] compacted(board)[r] == empty_row(),
        forall|r: int| 0 <= r < first ==> #[trigger] compacted(board)[r + n] == board[r],
        forall|r: int| first + n <= r < ROWS ==> #[trigger] compacted(board)[r] == board[r],
{
    let above = board.subrange(0, first);
    let full = board.subrange(first, first + n);
    let below = board.subrange(first + n, ROWS as int);
    assert(board =~= above + (full + below));
    lemma_filter_all_or_none(above, open_rows());
    lemma_filter_all_or_none(above, full_rows());
    lemma_filter_all_or_none(full, open_rows());
    lemma_filter_all_or_none(full, full_rows());
    lemma_filter_all_or_none(below, open_rows());
    lemma_filter_all_or_none(below, full_rows());
    Seq::filter_distributes_over_add(full, below, open_rows());
    Seq::filter_distributes_over_add(full, below, full_rows());
    Seq::filter_distributes_over_add(above, full + below, open_rows());
    Seq::filter_distributes_over_add(above, full + below, full_rows());
    assert(board.filter(full_rows()) =~= full);
    assert(board.filter(open_rows()) =~= above + below);
    lemma_compacted_keeps_open_rows(board);
    assert forall|r: int| 0 <= r < first implies #[trigger] compacted(board)[r + n] == board[r] by {
        assert((above + below)[r] == board[r]);
    }
    assert forall|r: int| first + n <= r < ROWS implies #[trigger] compacted(board)[r]
        == board[r] by {
        assert((above + below)[r - n] == board[r]);
    }
}

/// On a board with exactly one full row, clearing counts one row, puts an
/// empty row at the top, moves every row above the full one a row down, the
/// lowest of them into the full row's place, and leaves the rows below it
/// where they are. The full row's place ends up empty where the row above
/// it was empty, or where there is no row above it.
pub proof fn lemma_one_full_row(board: Board, full: int)
    requires
        is_board(board),
        0 <= full < ROWS,
        forall|r: int| 0 <= r < ROWS ==> (row_full(#[trigger] board[r]) <==> r == full),
    ensures
        full_count(board) == 1,
        is_board(compacted(board)),
        compacted(board)[0] == empty_row(),
        forall|r: int| 0 <= r < full ==> #[trigger] compacted(board)[r + 1] == board[r],
        forall|r: int| full < r < ROWS ==> #[trigger] compacted(board)[r] == board[r],
        full == 0 || board[full - 1] == empty_row() ==> compacted(board)[full] == empty_row(),
{
    lemma_full_rows_together(board, full, 1);
    if full > 0 {
        assert(compacted(board)[(full - 1) + 1] == board[full - 1]);
    }
}

/// Clearing a board that was just cleared changes nothing and counts no
/// row.
pub proof fn lemma_clearing_twice(board: Board)
    requires
        is_board(board),
    ensures
        full_count(compacted(board)) == 0,
        compacted(compacted(board)) == compacted(board),
{
    lemma_compacted_keeps_open_rows(board);
    lemma_without_full_rows(compacted(board));
}

/// The playfield.
#[derive(Clone, Copy, Debug)]
pub struct Grid {
    pub grid: [[usize; 10]; 20],
}

impl View for Grid {
    type V = Board;

    open spec fn view(&self) -> Board {
        Seq::new(ROWS as nat, |r: int| self.grid[r]@)
    }
}

impl Grid {
    /// Every cell is empty or holds the number of one of the seven kinds.
    pub open spec fn wf(&self) -> bool {
        cells_in_range(self@)
    }

    /// The view of a grid always has the playfield's size.
    pub proof fn lemma_view_is_board(&self)
        ensures
            is_board(self@),
    {
    }

    /// Whether every cell is empty or holds the number of one of the seven
    /// kinds.
    pub fn is_well_formed(&self) -> (ok: bool)
        ensures
            ok == self.wf(),
    {
        let mut row: usize = 0;
        while row < ROWS
            invariant
                row <= ROWS,
                forall|r: int, c: int|
                    0 <= r < row && 0 <= c < COLS ==> #[trigger] self@[r][c] <= 7,
            decreases ROWS - row,
        {
            let mut col: usize = 0;
            while col < COLS
                invariant
                    row < ROWS,
                    col <= COLS,
                    forall|r: int, c: int|
                        0 <= r < row && 0 <= c < COLS ==> #[trigger] self@[r][c] <= 7,
                    forall|c: int| 0 <= c < col ==> #[trigger] self@[row as int][c] <= 7,
                decreases COLS - col,
            {
                if self.grid[row][col] > 7 {
                    assert(self@[row as int][col as int] > 7);
                    return false;
                }
                col += 1;
            }
            row += 1;
        }
        true
    }

    /// Whether some row is full.
    pub fn has_full_row(&self) -> (found: bool)
        ensures
            found == !no_full_rows(self@),
    {
        let mut row: usize = 0;
        while row < ROWS
            invariant
                row <= ROWS,
                forall|r: int| 0 <= r < row ==> !row_full(#[trigger] self@[r]),
            decreases ROWS - row,
        {
            if self.is_row_full(row) {
                return true;
            }
            row += 1;
        }
        false
    }

    /// An empty playfield.
    pub fn new() -> (grid: Grid)
        ensures
            grid@ == empty_board(),
            grid.wf(),
    {
        let grid = Grid { grid: [[0; 10]; 20] };
        proof {
            assert forall|r: int| 0 <= r < ROWS implies #[trigger] grid@[r] == empty_row() by {
                assert(grid@[r] =~= empty_row());
            }
            assert(grid@ =~= empty_board());
        }
        grid
    }

    /// Whether the place `(row, col)` is off the playfield.
    pub fn is_cell_outside(&self, row: isize, col: isize) -> (outside: bool)
        ensures
            outside == cell_outside(row as int, col as int),
            outside <==> !(0 <= row < 20) || !(0 <= col < 10),
    {
        !(0 <= row && row < ROWS as isize && 0 <= col && col < COLS as isize)
    }

    /// Whether the cell at `(row, col)` is empty. The place must be on the
    /// playfield: test that first.
    pub fn is_cell_empty(&self, row: isize, col: isize) -> (empty: bool)
        requires
            !cell_outside(row as int, col as int),
        ensures
            empty == (self@[row as int][col as int] == 0),
    {
        self.grid[row as usize][col as usize] == 0
    }

    /// Writes the number of `kind` to the cell at `(row, col)`, whatever the
    /// cell held. The place must be on the playfield.
    pub fn commit(&mut self, row: isize, col: isize, kind: BlockKind)
        requires
            !cell_outside(row as int, col as int),
        ensures
            final(self)@ == with_cell(
                old(self)@,
                row as int,
                col as int,
                kind.spec_id() as usize,
            ),
            old(self).wf() ==> final(self).wf(),
    {
        self.grid[row as usize][col as usize] = kind.id();
        proof {
            let after = with_cell(old(self)@, row as int, col as int, kind.spec_id() as usize);
            assert forall|r: int| 0 <= r < ROWS implies #[trigger] self@[r] == after[r] by {
                assert(self@[r] =~= after[r]);
            }
            assert(self@ =~= after);
        }
    }

    /// Whether no cell of the row is empty.
    pub fn is_row_full(&self, row: usize) -> (full: bool)
        requires
            row < ROWS,
        ensures
            full == row_full(self@[row as int]),
    {
        let mut col: usize = 0;
        while col < COLS
            invariant
                col <= COLS,
                row < ROWS,
                forall|c: int| 0 <= c < col ==> self@[row as int][c] != 0,
            decreases COLS - col,
        {
            if self.grid[row][col] == 0 {
                return false;
            }
            col += 1;
        }
        true
    }

    /// Empties the row.
    pub fn clear_row(&mut self, row: usize)
        requires
            row < ROWS,
        ensures
            final(self)@ == old(self)@.update(row as int, empty_row()),
    {
        self.grid[row] = [0; 10];
        proof {
            let after = old(self)@.update(row as int, empty_row());
            assert forall|r: int| 0 <= r < ROWS implies #[trigger] self@[r] == after[r] by {
                assert(self@[r] =~= after[r]);
            }
            assert(self@ =~= after);
        }
    }

    /// Moves the row `n_rows` rows down, over what was there, and leaves it
    /// empty. A row that would leave the playfield stays where it is.
    pub fn move_down(&mut self, row: usize, n_rows: usize)
        requires
            row + n_rows <= usize::MAX,
        ensures
            final(self)@ == if row + n_rows < ROWS {
                old(self)@.update(row + n_rows, old(self)@[row as int]).update(
                    row as int,
                    empty_row(),
                )
            } else {
                old(self)@
            },
    {
        let target: usize = row + n_rows;
        if target < ROWS {
            self.grid[target] = self.grid[row];
            self.grid[row] = [0; 10];
            proof {
                let after = old(self)@.update(row + n_rows, old(self)@[row as int]).update(
                    row as int,
                    empty_row(),
                );
                assert forall|r: int| 0 <= r < ROWS implies #[trigger] self@[r] == after[r] by {
                    assert(self@[r] =~= after[r]);
                }
                assert(self@ =~= after);
            }
        }
    }

    /// Takes the full rows out of the playfield and lets the rows above them
    /// sink, in one pass from the bottom row to the top row: a full row is
    /// emptied and counted, and any other row moves down by the number of
    /// rows counted so far. Returns the number of rows taken out.
    pub fn clear_full_rows(&mut self) -> (count: usize)
        ensures
            final(self)@ == compacted(old(self)@),
            count == full_count(old(self)@),
            count <= ROWS,
            old(self).wf() ==> final(self).wf(),
    {
        let ghost before = self@;
        let mut completed: usize = 0;
        let mut row: usize = ROWS;
        proof {
            lemma_pass_starts(before);
        }
        while row > 0
            invariant
                is_board(before),
                row <= ROWS,
                completed <= ROWS,
                pass_reached(before, self@, row as int, completed as int),
            decreases row,
        {
            let ghost prev = self@;
            let ghost done = completed;
            row -= 1;
            proof {
                reveal(pass_reached);
                assert(prev[row as int] == prev.subrange(0, row + 1)[row as int]);
                assert(before[row as int] == before.subrange(0, row + 1)[row as int]);
            }
            if self.is_row_full(row) {
                self.clear_row(row);
                completed += 1;
            } else if completed > 0 {
                self.move_down(row, completed);
            }
            proof {
                lemma_pass_step(before, prev, self@, row as int, done as int);
            }
        }
        proof {
            lemma_pass_ends(before, self@, completed as int);
            lemma_compacted_keeps_open_rows(before);
        }
        completed
    }
}

/// How far one pass over the board has come when the rows from `row` down
/// are done and `completed` of them were full: the rows above `row` are
/// untouched, `completed` empty rows follow, and below them lie the rows
/// from `row` down that were not full.
#[verifier::opaque]
spec fn pass_reached(before: Board, now: Board, row: int, completed: int) -> bool {
    &&& 0 <= row
    &&& 0 <= completed
    &&& row + completed <= ROWS
    &&& now.len() == ROWS
    &&& now.subrange(0, row) == before.subrange(0, row)
    &&& forall|r: int| row <= r < row + completed ==> #[trigger] now[r] == empty_row()
    &&& now.subrange(row + completed, ROWS as int) == before.subrange(row, ROWS as int).filter(
        open_rows(),
    )
    &&& completed == before.subrange(row, ROWS as int).filter(full_rows()).len()
}

proof fn lemma_pass_starts(before: Board)
    requires
        is_board(before),
    ensures
        pass_reached(before, before, ROWS as int, 0),
{
    reveal(pass_reached);
    reveal(Seq::filter);
    assert(before.subrange(ROWS as int, ROWS as int) =~= Seq::<Seq<usize>>::empty());
}

proof fn lemma_pass_ends(before: Board, now: Board, completed: int)
    requires
        is_board(before),
        pass_reached(before, now, 0, completed),
    ensures
        now == compacted(before),
        completed == full_count(before),
{
    reveal(pass_reached);
    assert(before.subrange(0, ROWS as int) =~= before);
    assert(now =~= compacted(before));
}

proof fn lemma_pass_step(before: Board, prev: Board, now: Board, row: int, completed: int)
    requires
        is_board(before),
        0 <= row < ROWS,
        pass_reached(before, prev, row + 1, completed),
        now == if row_full(before[row]) {
            prev.update(row, empty_row())
        } else if completed > 0 {
            prev.update(row + completed, prev[row]).update(row, empty_row())
        } else {
            prev
        },
    ensures
        pass_reached(
            before,
            now,
            row,
            if row_full(before[row]) {
                completed + 1
            } else {
                completed
            },
        ),
{
    reveal(pass_reached);
    let tail = before.subrange(row + 1, ROWS as int);
    assert(before.subrange(row, ROWS as int) =~= seq![before[row]] + tail);
    lemma_filter_front(before[row], tail, open_rows());
    lemma_filter_front(before[row], tail, full_rows());
    assert(prev[row] == prev.subrange(0, row + 1)[row]);
    assert(before[row] == before.subrange(0, row + 1)[row]);
    assert(now.subrange(0, row) =~= prev.subrange(0, row + 1).subrange(0, row));
    assert(before.subrange(0, row) =~= before.subrange(0, row + 1).subrange(0, row));
    if row_full(before[row]) {
        assert(now.subrange(row + completed + 1, ROWS as int) =~= prev.subrange(
            row + 1 + completed,
            ROWS as int,
        ));
    } else {
        assert(now.subrange(row + completed, ROWS as int) =~= seq![before[row]] + prev.subrange(
            row + 1 + completed,
            ROWS as int,
        ));
    }
}

} // verus!
