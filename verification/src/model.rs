//! The rules of the game as mathematics: when a piece may stand where it
//! is, what locking it does to the board and to the score, and what each
//! move, and a whole tick, makes of a game.

use crate::block::{BlockKind, BlockView};
use crate::grid::{
    cell_outside, cells_in_range, compacted, empty_board, full_count, is_board,
    lemma_compacted_keeps_open_rows, lemma_full_count_step, lemma_without_full_rows, no_full_rows,
    row_full, Board, COLS, ROWS,
};
use vstd::prelude::*;

verus! {

/// What the player asks for in one tick.
#[derive(Clone, Copy, Debug, PartialEq, Eq, Structural)]
pub enum Input {
    Left,
    Right,
    RotateCw,
    RotateCcw,
    HardDrop,
    Reset,
    Idle,
}

/// Some cell of the piece is off the playfield.
pub open spec fn block_outside(block: BlockView) -> bool {
    exists|i: int| 0 <= i < 4 && cell_outside((#[trigger] block.cell(i)).1, block.cell(i).0)
}

/// None of the piece's cells lies on a locked cell. This speaks of the board
/// only for a piece that is on the playfield.
pub open spec fn block_fits(board: Board, block: BlockView) -> bool {
    forall|i: int| 0 <= i < 4 ==> board[(#[trigger] block.cell(i)).1][block.cell(i).0] == 0
}

/// The piece may stand where it is: on the playfield, and on no locked cell.
pub open spec fn block_allowed(board: Board, block: BlockView) -> bool {
    !block_outside(block) && block_fits(board, block)
}

/// The board with the number of the piece's kind written to the cells that
/// the piece occupies.
pub open spec fn committed(board: Board, block: BlockView) -> Board {
    Seq::new(
        ROWS as nat,
        |r: int|
            Seq::new(
                COLS as nat,
                |c: int|
                    if block.covers(r, c) {
                        block.kind.spec_id() as usize
                    } else {
                        board[r][c]
                    },
            ),
    )
}

/// The place where the piece comes to rest when it falls straight down: the
/// last place, going down row by row, at which it may still stand.
pub open spec fn resting(board: Board, block: BlockView) -> BlockView
    decreases ROWS - block.row_offset,
    via resting_decreases
{
    if block_allowed(board, block.moved(1, 0)) {
        resting(board, block.moved(1, 0))
    } else {
        block
    }
}

#[via_fn]
proof fn resting_decreases(board: Board, block: BlockView) {
    let below = block.moved(1, 0);
    if block_allowed(board, below) {
        assert(block.kind.shape(block.rotation)[0].0 >= 0);
        assert(!cell_outside(below.cell(0).1, below.cell(0).0));
    }
}

/// The points for the rows cleared by one lock, by their number.
pub open spec fn score_table() -> Seq<nat> {
    seq![0, 40, 100, 300, 1200]
}

/// The game as a mathematical value.
pub struct GameView {
    pub board: Board,
    pub block: BlockView,
    pub score: nat,
    pub level: nat,
    pub lines: nat,
    pub game_over: bool,
}

impl GameView {
    /// A game at its start: an empty board, a fresh piece of the given kind,
    /// nothing scored.
    pub open spec fn initial(kind: BlockKind) -> GameView {
        GameView {
            board: empty_board(),
            block: BlockView::spawn(kind),
            score: 0,
            level: 0,
            lines: 0,
            game_over: false,
        }
    }

    /// What holds of a game between any two moves: the board has its size,
    /// its cells hold zero or the number of a kind, and none of its rows is
    /// full; the piece is on the playfield and, unless the game is over, on
    /// no locked cell; the level is a tenth of the lines cleared.
    pub open spec fn wf(self) -> bool {
        &&& is_board(self.board)
        &&& cells_in_range(self.board)
        &&& no_full_rows(self.board)
        &&& self.block.wf()
        &&& !block_outside(self.block)
        &&& !self.game_over ==> block_fits(self.board, self.block)
        &&& self.level == self.lines / 10
    }

    /// Score and line count can be held in a `u32`.
    pub open spec fn stats_fit(self) -> bool {
        self.score <= u32::MAX && self.lines <= u32::MAX
    }

    /// The same game with another piece in play.
    pub open spec fn with_block(self, block: BlockView) -> GameView {
        GameView { block, ..self }
    }

    /// The game after an attempt to bring the piece to `candidate`: the piece
    /// is there if it may stand there, and else nothing has changed.
    pub open spec fn attempt(self, candidate: BlockView) -> GameView {
        if block_allowed(self.board, candidate) {
            self.with_block(candidate)
        } else {
            self
        }
    }

    /// The game after a move of the piece one column to the left.
    pub open spec fn after_left(self) -> GameView {
        self.attempt(self.block.moved(0, -1))
    }

    /// The game after a move of the piece one column to the right.
    pub open spec fn after_right(self) -> GameView {
        self.attempt(self.block.moved(0, 1))
    }

    /// The game after a turn of the piece to its next rotation state.
    pub open spec fn after_rotate_right(self) -> GameView {
        self.attempt(self.block.rotated_right())
    }

    /// The game after a turn of the piece to its previous rotation state.
    pub open spec fn after_rotate_left(self) -> GameView {
        self.attempt(self.block.rotated_left())
    }

    /// The game after `cleared` rows are scored: the table's points for that
    /// many rows, times the level plus one, are added to the score; the rows
    /// are added to the lines; the level is a tenth of the lines.
    pub open spec fn after_score(self, cleared: nat) -> GameView {
        GameView {
            score: self.score + score_table()[cleared as int] * (self.level + 1),
            lines: self.lines + cleared,
            level: (self.lines + cleared) / 10,
            ..self
        }
    }

    /// The game after the piece's cells are written to the board, the full
    /// rows are cleared and scored. The piece itself is still the old one.
    pub open spec fn settled(self) -> GameView {
        let filled = committed(self.board, self.block);
        GameView { board: compacted(filled), ..self.after_score(full_count(filled)) }
    }

    /// The game after a fresh piece of kind `next` comes into play. The game
    /// is over if the piece lies on a locked cell.
    pub open spec fn spawned(self, next: BlockKind) -> GameView {
        GameView {
            block: BlockView::spawn(next),
            game_over: self.game_over || !block_fits(self.board, BlockView::spawn(next)),
            ..self
        }
    }

    /// The game after the piece is locked where it stands and a piece of
    /// kind `next` takes its place.
    pub open spec fn after_lock(self, next: BlockKind) -> GameView {
        self.settled().spawned(next)
    }

    /// The game after a step of the piece one row down: the piece is a row
    /// lower if it may stand there, and else it is locked.
    pub open spec fn after_down(self, next: BlockKind) -> GameView {
        if block_allowed(self.board, self.block.moved(1, 0)) {
            self.with_block(self.block.moved(1, 0))
        } else {
            self.after_lock(next)
        }
    }

    /// The game with the piece fallen to its place of rest.
    pub open spec fn dropped(self) -> GameView {
        self.with_block(resting(self.board, self.block))
    }

    /// The game after a hard drop: the piece falls to its place of rest and
    /// is locked there.
    pub open spec fn after_hard_drop(self, next: BlockKind) -> GameView {
        self.dropped().after_lock(next)
    }

    /// The game after the player's input is served. `next` is the kind of
    /// the piece that comes into play if the input calls for one.
    pub open spec fn after_input(self, input: Input, next: BlockKind) -> GameView {
        match input {
            Input::Left => self.after_left(),
            Input::Right => self.after_right(),
            Input::RotateCw => self.after_rotate_right(),
            Input::RotateCcw => self.after_rotate_left(),
            Input::HardDrop => self.after_hard_drop(next),
            Input::Reset => GameView::initial(next),
            Input::Idle => self,
        }
    }

    /// The game after gravity has had its turn, if it was due.
    pub open spec fn after_gravity(self, due: bool, next: BlockKind) -> GameView {
        if due {
            self.after_down(next)
        } else {
            self
        }
    }

    /// A game that is over starts anew with a piece of kind `next`; any
    /// other game goes on.
    pub open spec fn restarted_if_over(self, next: BlockKind) -> GameView {
        if self.game_over {
            GameView::initial(next)
        } else {
            self
        }
    }

    /// The game after one tick: first the input, then gravity if it is due,
    /// then a new start if the game is over. `first`, `second` and `third`
    /// are the kinds of the pieces that these three steps bring into play,
    /// where they bring one.
    pub open spec fn after_update(
        self,
        input: Input,
        gravity_due: bool,
        first: BlockKind,
        second: BlockKind,
        third: BlockKind,
    ) -> GameView {
        self.after_input(input, first).after_gravity(gravity_due, second).restarted_if_over(third)
    }

    /// Locking the piece where it stands leaves score and line count within
    /// a `u32`.
    pub open spec fn lock_fits(self) -> bool {
        self.settled().stats_fit()
    }

    /// A step down leaves score and line count within a `u32`.
    pub open spec fn down_fits(self) -> bool {
        block_allowed(self.board, self.block.moved(1, 0)) || self.lock_fits()
    }

    /// The input can be served: a hard drop starts from a piece that may
    /// stand where it is, and leaves score and line count within a `u32`.
    pub open spec fn accepts(self, input: Input) -> bool {
        input == Input::HardDrop ==> block_fits(self.board, self.block)
            && self.dropped().lock_fits()
    }

    /// There is room left for two locks, each with four rows cleared: with
    /// that much room a tick leaves score and line count within a `u32`,
    /// whatever it brings.
    pub open spec fn headroom(self) -> bool {
        &&& self.score + 1200 * (self.level + 1) + 1200 * (self.level + 2) <= u32::MAX
        &&& self.lines + 8 <= u32::MAX
    }
}

/// A piece on the playfield has its frame's corner within three cells of
/// the playfield, so that its cells, and those of the piece one step away
/// in any direction, have coordinates that an `isize` holds.
pub proof fn lemma_inside_offsets(block: BlockView)
    requires
        !block_outside(block),
    ensures
        -3 <= block.row_offset < ROWS,
        -3 <= block.col_offset < COLS,
        block.representable(),
        block.moved(1, 0).representable(),
        block.moved(0, 1).representable(),
        block.moved(0, -1).representable(),
        block.rotated_right().representable(),
        block.rotated_left().representable(),
{
    assert(0 <= block.kind.shape(block.rotation)[0].0 <= 3);
    assert(0 <= block.kind.shape(block.rotation)[0].1 <= 3);
    assert(!cell_outside(block.cell(0).1, block.cell(0).0));
    lemma_near_is_representable(block);
    lemma_near_is_representable(block.moved(1, 0));
    lemma_near_is_representable(block.moved(0, 1));
    lemma_near_is_representable(block.moved(0, -1));
    lemma_near_is_representable(block.rotated_right());
    lemma_near_is_representable(block.rotated_left());
}

/// A piece whose frame's corner is near the playfield has cells whose
/// coordinates an `isize` holds.
pub proof fn lemma_near_is_representable(block: BlockView)
    requires
        -4 <= block.row_offset <= ROWS,
        -4 <= block.col_offset <= COLS,
    ensures
        block.representable(),
{
    assert forall|i: int| 0 <= i < 4 implies isize::MIN <= (#[trigger] block.cell(i)).0
        <= isize::MAX && isize::MIN <= block.cell(i).1 <= isize::MAX by {
        assert(0 <= block.kind.shape(block.rotation)[i].0 <= 3);
        assert(0 <= block.kind.shape(block.rotation)[i].1 <= 3);
    }
}

/// A fresh piece of any kind is on the playfield, in its two top rows.
pub proof fn lemma_spawn_is_inside(kind: BlockKind)
    ensures
        BlockView::spawn(kind).wf(),
        !block_outside(BlockView::spawn(kind)),
        forall|i: int| 0 <= i < 4 ==> 0 <= (#[trigger] BlockView::spawn(kind).cell(i)).1 <= 1,
{
}

/// On a row that the piece does not touch, the committed board is the board.
/// On any row, some column is not touched by the piece.
pub proof fn lemma_committed_rows(board: Board, block: BlockView, r: int)
    requires
        is_board(board),
        0 <= r < ROWS,
    ensures
        committed(board, block)[r].len() == COLS,
        (forall|i: int| 0 <= i < 4 ==> (#[trigger] block.cell(i)).1 != r) ==> committed(
            board,
            block,
        )[r] == board[r],
        exists|c: int| 0 <= c < COLS && !block.covers(r, c),
{
    let filled = committed(board, block);
    if forall|i: int| 0 <= i < 4 ==> (#[trigger] block.cell(i)).1 != r {
        assert(filled[r] =~= board[r]);
    }
    let c = if block.col_offset >= 1 {
        0int
    } else {
        9int
    };
    assert forall|i: int| 0 <= i < 4 implies (#[trigger] block.cell(i)).0 != c by {
        assert(0 <= block.kind.shape(block.rotation)[i].1 <= 3);
    }
    assert(!block.covers(r, c));
}

/// The committed board has the playfield's size, and holds numbers of kinds
/// where the board did.
pub proof fn lemma_committed_is_board(board: Board, block: BlockView)
    requires
        is_board(board),
    ensures
        is_board(committed(board, block)),
        cells_in_range(board) ==> cells_in_range(committed(board, block)),
{
}

/// A piece has four cells, so on a board without a full row it fills four
/// rows at most.
pub proof fn lemma_commit_fills_at_most_four_rows(board: Board, block: BlockView)
    requires
        is_board(board),
        no_full_rows(board),
    ensures
        full_count(committed(board, block)) <= 4,
{
    let filled = committed(board, block);
    lemma_committed_is_board(board, block);
    assert forall|r: int| 0 <= r < ROWS && row_full(#[trigger] filled[r]) implies exists|i: int|
        0 <= i < 4 && (#[trigger] block.cell(i)).1 == r by {
        lemma_committed_rows(board, block, r);
        if forall|i: int| 0 <= i < 4 ==> (#[trigger] block.cell(i)).1 != r {
            assert(!row_full(board[r]));
        }
    }
    lemma_full_rows_among(
        filled,
        ROWS as int,
        block.cell(0).1,
        block.cell(1).1,
        block.cell(2).1,
        block.cell(3).1,
    );
    assert(filled.subrange(0, ROWS as int) =~= filled);
}

/// The number of rows below `n` among four given rows.
pub open spec fn rows_below(n: int, a: int, b: int, c: int, d: int) -> nat {
    let one: nat = 1;
    let zero: nat = 0;
    (if a < n {
        one
    } else {
        zero
    }) + (if b < n {
        one
    } else {
        zero
    }) + (if c < n {
        one
    } else {
        zero
    }) + (if d < n {
        one
    } else {
        zero
    })
}

/// Where every full row is one of four given rows, the first `n` rows hold
/// no more full rows than there are given rows among them.
pub proof fn lemma_full_rows_among(board: Board, n: int, a: int, b: int, c: int, d: int)
    requires
        0 <= n <= board.len(),
        forall|r: int|
            0 <= r < board.len() && row_full(#[trigger] board[r]) ==> r == a || r == b || r == c
                || r == d,
    ensures
        full_count(board.subrange(0, n)) <= rows_below(n, a, b, c, d),
    decreases n,
{
    if n == 0 {
        lemma_full_count_step(board, 0);
    } else {
        lemma_full_rows_among(board, n - 1, a, b, c, d);
        lemma_full_count_step(board, n);
    }
}

/// Falling straight down, a piece that may stand where it is comes to rest
/// in its own columns and rotation state, at or below where it was, at a
/// place where it may stand, and from which it cannot go one row further.
pub proof fn lemma_resting(board: Board, block: BlockView)
    requires
        block_allowed(board, block),
    ensures
        resting(board, block).kind == block.kind,
        resting(board, block).rotation == block.rotation,
        resting(board, block).col_offset == block.col_offset,
        resting(board, block).row_offset >= block.row_offset,
        block_allowed(board, resting(board, block)),
        !block_allowed(board, resting(board, block).moved(1, 0)),
    decreases ROWS - block.row_offset,
{
    let below = block.moved(1, 0);
    if block_allowed(board, below) {
        assert(below.kind.shape(below.rotation)[0].0 >= 0);
        assert(!cell_outside(below.cell(0).1, below.cell(0).0));
        lemma_resting(board, below);
    }
}

impl GameView {
    /// A game at its start is well formed.
    pub proof fn lemma_initial_wf(kind: BlockKind)
        ensures
            GameView::initial(kind).wf(),
    {
        lemma_spawn_is_inside(kind);
        assert forall|r: int| 0 <= r < ROWS implies !row_full(#[trigger] empty_board()[r]) by {
            assert(empty_board()[r][0] == 0);
        }
    }

    /// An attempt to bring the piece elsewhere keeps a game well formed.
    pub proof fn lemma_attempt_wf(self, candidate: BlockView)
        requires
            self.wf(),
            candidate.wf(),
        ensures
            self.attempt(candidate).wf(),
    {
    }

    /// Scoring keeps the level a tenth of the lines, and touches neither
    /// board nor piece.
    pub proof fn lemma_after_score_wf(self, cleared: nat)
        requires
            self.wf(),
        ensures
            self.after_score(cleared).wf(),
    {
    }

    /// Locking the piece keeps a game well formed, and clears four rows at
    /// most.
    pub proof fn lemma_after_lock_wf(self, next: BlockKind)
        requires
            self.wf(),
        ensures
            self.after_lock(next).wf(),
            self.settled().lines <= self.lines + 4,
            full_count(committed(self.board, self.block)) <= 4,
    {
        let filled = committed(self.board, self.block);
        lemma_committed_is_board(self.board, self.block);
        lemma_commit_fills_at_most_four_rows(self.board, self.block);
        lemma_compacted_keeps_open_rows(filled);
        lemma_spawn_is_inside(next);
    }

    /// A step down keeps a game well formed.
    pub proof fn lemma_after_down_wf(self, next: BlockKind)
        requires
            self.wf(),
        ensures
            self.after_down(next).wf(),
    {
        self.lemma_after_lock_wf(next);
    }

    /// A hard drop keeps a game well formed.
    pub proof fn lemma_after_hard_drop_wf(self, next: BlockKind)
        requires
            self.wf(),
            block_fits(self.board, self.block),
        ensures
            self.dropped().wf(),
            self.after_hard_drop(next).wf(),
    {
        lemma_resting(self.board, self.block);
        self.dropped().lemma_after_lock_wf(next);
    }

    /// Serving an input keeps a game well formed.
    pub proof fn lemma_after_input_wf(self, input: Input, next: BlockKind)
        requires
            self.wf(),
            input == Input::HardDrop ==> block_fits(self.board, self.block),
        ensures
            self.after_input(input, next).wf(),
    {
        self.block.lemma_rotations_are_inverse();
        match input {
            Input::HardDrop => {
                self.lemma_after_hard_drop_wf(next);
            },
            Input::Reset => {
                GameView::lemma_initial_wf(next);
            },
            _ => {},
        }
    }

    /// A tick keeps a game well formed, and leaves it not over.
    pub proof fn lemma_after_update_wf(
        self,
        input: Input,
        gravity_due: bool,
        first: BlockKind,
        second: BlockKind,
        third: BlockKind,
    )
        requires
            self.wf(),
            input == Input::HardDrop ==> block_fits(self.board, self.block),
        ensures
            self.after_update(input, gravity_due, first, second, third).wf(),
            !self.after_update(input, gravity_due, first, second, third).game_over,
    {
        self.lemma_after_input_wf(input, first);
        self.after_input(input, first).lemma_after_down_wf(second);
        GameView::lemma_initial_wf(third);
    }

    /// A lock adds the points of four rows at most, four lines at most, and
    /// one level at most.
    pub proof fn lemma_lock_adds_little(self)
        requires
            self.wf(),
        ensures
            self.settled().score <= self.score + 1200 * (self.level + 1),
            self.settled().lines <= self.lines + 4,
            self.settled().level <= self.level + 1,
    {
        self.lemma_after_lock_wf(BlockKind::L);
        let cleared = full_count(committed(self.board, self.block));
        let points = score_table()[cleared as int];
        let factor = self.level + 1;
        assert(points <= 1200);
        assert(points * factor <= 1200 * factor) by (nonlinear_arith)
            requires
                points <= 1200,
                0 <= factor,
        ;
    }

    /// With room for two locks, any input can be served and gravity can
    /// have its turn after it, whatever pieces come into play.
    pub proof fn lemma_headroom_is_enough(self, input: Input)
        requires
            self.wf(),
            self.headroom(),
            input == Input::HardDrop ==> block_fits(self.board, self.block),
        ensures
            self.accepts(input),
            forall|next: BlockKind| #[trigger] self.after_input(input, next).down_fits(),
    {
        if input == Input::HardDrop {
            self.lemma_after_hard_drop_wf(BlockKind::L);
            self.dropped().lemma_lock_adds_little();
        }
        assert forall|next: BlockKind| #[trigger]
            self.after_input(input, next).down_fits() by {
            let served = self.after_input(input, next);
            self.lemma_after_input_wf(input, next);
            served.lemma_lock_adds_little();
        }
    }

    /// A move or turn that would bring a cell of the piece off the playfield
    /// changes nothing: the piece is as it was before the attempt.
    pub proof fn lemma_move_off_the_playfield_is_reverted(self)
        ensures
            block_outside(self.block.moved(0, -1)) ==> self.after_left() == self,
            block_outside(self.block.moved(0, 1)) ==> self.after_right() == self,
            block_outside(self.block.rotated_right()) ==> self.after_rotate_right() == self,
            block_outside(self.block.rotated_left()) ==> self.after_rotate_left() == self,
    {
    }

    /// A move or turn that would bring a cell of the piece onto a locked
    /// cell changes nothing.
    pub proof fn lemma_move_onto_locked_cell_is_reverted(self)
        ensures
            !block_fits(self.board, self.block.moved(0, -1)) ==> self.after_left() == self,
            !block_fits(self.board, self.block.moved(0, 1)) ==> self.after_right() == self,
            !block_fits(self.board, self.block.rotated_right()) ==> self.after_rotate_right()
                == self,
            !block_fits(self.board, self.block.rotated_left()) ==> self.after_rotate_left()
                == self,
    {
    }

    /// A hard drop is what steps down come to: where the piece can go a row
    /// down, the hard drop after that step is the hard drop before it, and
    /// where it cannot, the step down is the hard drop.
    pub proof fn lemma_hard_drop_by_steps(self, next: BlockKind, other: BlockKind)
        ensures
            block_allowed(self.board, self.block.moved(1, 0)) ==> self.after_down(
                other,
            ).after_hard_drop(next) == self.after_hard_drop(next),
            !block_allowed(self.board, self.block.moved(1, 0)) ==> self.after_down(next)
                == self.after_hard_drop(next),
    {
    }

    /// A hard drop at the start of a game, on the empty board, locks the
    /// piece with its lowest cell in the bottom row, in the columns in which
    /// it came into play. No row is cleared, nothing is scored, and a fresh
    /// piece of kind `next` is in play.
    pub proof fn lemma_hard_drop_on_empty_board(kind: BlockKind, next: BlockKind)
        ensures
            ({
                let start = GameView::initial(kind);
                let rest = resting(empty_board(), BlockView::spawn(kind));
                let end = start.after_hard_drop(next);
                &&& rest == BlockView::spawn(kind).moved(rest.row_offset, 0)
                &&& !block_outside(rest)
                &&& exists|i: int| 0 <= i < 4 && (#[trigger] rest.cell(i)).1 == ROWS - 1
                &&& end.board == committed(empty_board(), rest)
                &&& end.block == BlockView::spawn(next)
                &&& !end.game_over
                &&& end.score == 0 && end.lines == 0 && end.level == 0
            }),
    {
        let spawn = BlockView::spawn(kind);
        let rest = resting(empty_board(), spawn);
        let filled = committed(empty_board(), rest);
        lemma_spawn_is_inside(kind);
        lemma_fits_on_empty_board(spawn);
        lemma_resting(empty_board(), spawn);
        lemma_rest_on_the_floor(spawn);
        lemma_few_cells_fill_no_row(empty_board(), rest);
        lemma_without_full_rows(filled);
        lemma_spawn_fits_over_low_cells(rest, next);
        let points = score_table()[0];
        assert(points * (0nat + 1) == 0) by (nonlinear_arith)
            requires
                points == 0,
        ;
    }
}

/// On the empty board a piece that is on the playfield lies on no locked
/// cell.
pub proof fn lemma_fits_on_empty_board(block: BlockView)
    requires
        !block_outside(block),
    ensures
        block_fits(empty_board(), block),
{
    assert forall|i: int| 0 <= i < 4 implies empty_board()[(#[trigger] block.cell(
        i,
    )).1][block.cell(i).0] == 0 by {
        assert(!cell_outside(block.cell(i).1, block.cell(i).0));
    }
}

/// On the empty board only the floor stops a falling piece: it comes to rest
/// with a cell in the bottom row, and so with all its cells in the four
/// bottom rows.
pub proof fn lemma_rest_on_the_floor(block: BlockView)
    requires
        !block_outside(block),
    ensures
        !block_outside(resting(empty_board(), block)),
        exists|i: int|
            0 <= i < 4 && (#[trigger] resting(empty_board(), block).cell(i)).1 == ROWS - 1,
        resting(empty_board(), block).row_offset >= ROWS - 4,
{
    let rest = resting(empty_board(), block);
    let below = rest.moved(1, 0);
    lemma_fits_on_empty_board(block);
    lemma_resting(empty_board(), block);
    if !block_outside(below) {
        lemma_fits_on_empty_board(below);
    }
    let i = choose|i: int|
        0 <= i < 4 && cell_outside((#[trigger] below.cell(i)).1, below.cell(i).0);
    assert(!cell_outside(rest.cell(i).1, rest.cell(i).0));
    assert(rest.cell(i).1 == ROWS - 1);
    rest.lemma_cells_in_frame();
}

/// A piece has four cells and a row has ten, so on the empty board a locked
/// piece fills no row.
pub proof fn lemma_few_cells_fill_no_row(board: Board, block: BlockView)
    requires
        board == empty_board(),
    ensures
        no_full_rows(committed(board, block)),
{
    let filled = committed(board, block);
    assert forall|r: int| 0 <= r < filled.len() implies !row_full(#[trigger] filled[r]) by {
        lemma_committed_rows(board, block, r);
        let c = choose|c: int| 0 <= c < COLS && !block.covers(r, c);
        assert(filled[r][c] == 0);
    }
}

/// A fresh piece lies on no cell of a piece that was locked in the four
/// bottom rows of the empty board.
pub proof fn lemma_spawn_fits_over_low_cells(rest: BlockView, next: BlockKind)
    requires
        rest.row_offset >= ROWS - 4,
    ensures
        block_fits(committed(empty_board(), rest), BlockView::spawn(next)),
{
    let fresh = BlockView::spawn(next);
    let filled = committed(empty_board(), rest);
    lemma_spawn_is_inside(next);
    rest.lemma_cells_in_frame();
    assert forall|j: int| 0 <= j < 4 implies filled[(#[trigger] fresh.cell(j)).1][fresh.cell(
        j,
    ).0] == 0 by {
        let row = fresh.cell(j).1;
        let col = fresh.cell(j).0;
        assert(!cell_outside(row, col));
        assert(!rest.covers(row, col));
    }
}

} // verus!
