//! The game: a playfield, the piece in play, and the score, moved from tick
//! to tick by the player's input and by gravity.

use crate::block::{Block, BlockKind, BlockView};
use crate::grid::{cell_outside, Board, Grid, COLS, ROWS};
use crate::model::{
    block_allowed, block_fits, block_outside, committed, lemma_inside_offsets,
    lemma_near_is_representable, lemma_resting, lemma_spawn_is_inside, resting, score_table,
    GameView, Input,
};
use vstd::prelude::*;

verus! {

/// The score, the level, and the number of lines cleared so far.
#[derive(Clone, Copy, Debug, PartialEq, Eq, Structural)]
pub struct Stats {
    pub score: u32,
    pub level: u32,
    pub lines: u32,
}

impl Default for Stats {
    fn default() -> (stats: Stats)
        ensures
            stats.score == 0,
            stats.level == 0,
            stats.lines == 0,
    {
        Stats { score: 0, level: 0, lines: 0 }
    }
}

/// One of the first `n` cells of the piece is the board cell in row `row`
/// and column `col`.
spec fn covers_first(block: BlockView, n: int, row: int, col: int) -> bool {
    exists|i: int| 0 <= i < n && #[trigger] block.cell(i) == (col, row)
}

/// The board with the first `n` cells of the piece written to it.
spec fn committed_first(board: Board, block: BlockView, n: int) -> Board {
    Seq::new(
        ROWS as nat,
        |r: int|
            Seq::new(
                COLS as nat,
                |c: int|
                    if covers_first(block, n, r, c) {
                        block.kind.spec_id() as usize
                    } else {
                        board[r][c]
                    },
            ),
    )
}

/// A game in progress.
#[derive(Clone, Copy, Debug)]
pub struct Game {
    grid: Grid,
    current_block: Block,
    game_over: bool,
    stats: Stats,
}

impl View for Game {
    type V = GameView;

    closed spec fn view(&self) -> GameView {
        GameView {
            board: self.grid@,
            block: self.current_block@,
            score: self.stats.score as nat,
            level: self.stats.level as nat,
            lines: self.stats.lines as nat,
            game_over: self.game_over,
        }
    }
}

impl Game {
    /// What every game between two moves satisfies.
    pub open spec fn inv(&self) -> bool {
        self@.wf()
    }

    /// A game at its start, with a first piece of the given kind.
    pub fn with_block(kind: BlockKind) -> (game: Game)
        ensures
            game@ == GameView::initial(kind),
            game.inv(),
    {
        proof {
            GameView::lemma_initial_wf(kind);
        }
        Game {
            grid: Grid::new(),
            current_block: Block::new(kind),
            game_over: false,
            stats: Stats::default(),
        }
    }

    /// A game at its start, with a first piece of a kind drawn at random.
    pub fn new() -> (game: Game)
        ensures
            exists|kind: BlockKind| game@ == GameView::initial(kind),
            game.inv(),
    {
        Game::with_block(BlockKind::random())
    }

    /// The playfield.
    pub fn grid(&self) -> (grid: Grid)
        ensures
            grid@ == self@.board,
    {
        self.grid
    }

    /// The piece in play.
    pub fn current_block(&self) -> (block: Block)
        ensures
            block@ == self@.block,
    {
        self.current_block
    }

    /// Score, level and lines cleared.
    pub fn stats(&self) -> (stats: Stats)
        ensures
            stats.score == self@.score,
            stats.level == self@.level,
            stats.lines == self@.lines,
    {
        self.stats
    }

    /// Whether the game is over.
    pub fn is_game_over(&self) -> (over: bool)
        ensures
            over == self@.game_over,
    {
        self.game_over
    }

    /// Whether the game is as every game between two moves is. A game that
    /// was made and changed by the functions of this type always is.
    pub fn is_valid(&self) -> (ok: bool)
        ensures
            ok == self.inv(),
    {
        proof {
            self.grid.lemma_view_is_board();
            if !block_outside(self@.block) {
                lemma_inside_offsets(self@.block);
            }
        }
        if !self.grid.is_well_formed() || self.grid.has_full_row() {
            return false;
        }
        if self.current_block.rotation_state() >= 4 {
            return false;
        }
        let row: isize = self.current_block.row_offset();
        let col: isize = self.current_block.col_offset();
        if row < -4 || row > 20 || col < -4 || col > 10 {
            return false;
        }
        proof {
            lemma_near_is_representable(self@.block);
        }
        if self.is_block_outside() {
            return false;
        }
        if !self.game_over && !self.block_fits() {
            return false;
        }
        self.stats.level == self.stats.lines / 10
    }

    /// Whether there is room left for two locks, each with four rows
    /// cleared.
    pub fn has_headroom(&self) -> (ok: bool)
        ensures
            ok == self@.headroom(),
    {
        let score: u64 = self.stats.score as u64;
        let level: u64 = self.stats.level as u64;
        let lines: u64 = self.stats.lines as u64;
        score + 1200 * (level + 1) + 1200 * (level + 2) <= u32::MAX as u64 && lines + 8
            <= u32::MAX as u64
    }

    /// Whether some cell of the piece in play is off the playfield.
    pub fn is_block_outside(&self) -> (outside: bool)
        requires
            self@.block.wf(),
            self@.block.representable(),
        ensures
            outside == block_outside(self@.block),
    {
        let cells = self.current_block.get_cell_position();
        let mut i: usize = 0;
        while i < 4
            invariant
                i <= 4,
                forall|j: int|
                    0 <= j < 4 ==> (#[trigger] cells[j]).0 == self@.block.cell(j).0 && cells[j].1
                        == self@.block.cell(j).1,
                forall|j: int|
                    0 <= j < i ==> !cell_outside(
                        (#[trigger] self@.block.cell(j)).1,
                        self@.block.cell(j).0,
                    ),
            decreases 4 - i,
        {
            let (col, row) = cells[i];
            if self.grid.is_cell_outside(row, col) {
                assert(cell_outside(self@.block.cell(i as int).1, self@.block.cell(i as int).0));
                return true;
            }
            i += 1;
        }
        false
    }

    /// Whether none of the cells of the piece in play lies on a locked cell.
    /// The piece must be on the playfield: test that first.
    pub fn block_fits(&self) -> (fits: bool)
        requires
            self@.block.wf(),
            !block_outside(self@.block),
        ensures
            fits == block_fits(self@.board, self@.block),
    {
        proof {
            lemma_inside_offsets(self@.block);
        }
        let cells = self.current_block.get_cell_position();
        let mut i: usize = 0;
        while i < 4
            invariant
                i <= 4,
                !block_outside(self@.block),
                forall|j: int|
                    0 <= j < 4 ==> (#[trigger] cells[j]).0 == self@.block.cell(j).0 && cells[j].1
                        == self@.block.cell(j).1,
                forall|j: int|
                    0 <= j < i ==> self@.board[(#[trigger] self@.block.cell(j)).1][self@.block.cell(
                        j,
                    ).0] == 0,
            decreases 4 - i,
        {
            let (col, row) = cells[i];
            assert(!cell_outside(self@.block.cell(i as int).1, self@.block.cell(i as int).0));
            if !self.grid.is_cell_empty(row, col) {
                return false;
            }
            i += 1;
        }
        true
    }

    /// Moves the piece one column to the left, if it may stand there.
    pub fn move_block_left(&mut self)
        requires
            old(self).inv(),
        ensures
            final(self)@ == old(self)@.after_left(),
            !block_allowed(old(self)@.board, old(self)@.block.moved(0, -1)) ==> final(self)@
                == old(self)@,
            final(self).inv(),
    {
        proof {
            lemma_inside_offsets(self@.block);
        }
        self.current_block.move_by(0, -1);
        if self.is_block_outside() || !self.block_fits() {
            self.current_block.move_by(0, 1);
        }
    }

    /// Moves the piece one column to the right, if it may stand there.
    pub fn move_block_right(&mut self)
        requires
            old(self).inv(),
        ensures
            final(self)@ == old(self)@.after_right(),
            !block_allowed(old(self)@.board, old(self)@.block.moved(0, 1)) ==> final(self)@
                == old(self)@,
            final(self).inv(),
    {
        proof {
            lemma_inside_offsets(self@.block);
        }
        self.current_block.move_by(0, 1);
        if self.is_block_outside() || !self.block_fits() {
            self.current_block.move_by(0, -1);
        }
    }

    /// Turns the piece to its next rotation state, if it may stand so.
    pub fn rotate_block_right(&mut self)
        requires
            old(self).inv(),
        ensures
            final(self)@ == old(self)@.after_rotate_right(),
            !block_allowed(old(self)@.board, old(self)@.block.rotated_right()) ==> final(self)@
                == old(self)@,
            final(self).inv(),
    {
        proof {
            lemma_inside_offsets(self@.block);
            self@.block.lemma_rotations_are_inverse();
        }
        self.current_block.rotate_right();
        if self.is_block_outside() || !self.block_fits() {
            self.current_block.rotate_left();
        }
    }

    /// Turns the piece to its previous rotation state, if it may stand so.
    pub fn rotate_block_left(&mut self)
        requires
            old(self).inv(),
        ensures
            final(self)@ == old(self)@.after_rotate_left(),
            !block_allowed(old(self)@.board, old(self)@.block.rotated_left()) ==> final(self)@
                == old(self)@,
            final(self).inv(),
    {
        proof {
            lemma_inside_offsets(self@.block);
            self@.block.lemma_rotations_are_inverse();
        }
        self.current_block.rotate_left();
        if self.is_block_outside() || !self.block_fits() {
            self.current_block.rotate_right();
        }
    }

    /// Scores `cleared` rows, of which one lock clears four at most.
    pub fn add_score(&mut self, cleared: u32)
        requires
            cleared <= 4,
            old(self)@.level < u32::MAX,
            old(self)@.after_score(cleared as nat).stats_fit(),
        ensures
            final(self)@ == old(self)@.after_score(cleared as nat),
            old(self).inv() ==> final(self).inv(),
    {
        let table: [u32; 5] = [0, 40, 100, 300, 1200];
        proof {
            assert(table[cleared as int] == score_table()[cleared as int]);
            if self.inv() {
                self@.lemma_after_score_wf(cleared as nat);
            }
        }
        self.stats.score += table[cleared as usize] * (self.stats.level + 1);
        self.stats.lines += cleared;
        self.stats.level = self.stats.lines / 10;
    }

    /// Locks the piece where it stands: writes its cells to the playfield,
    /// clears and scores the full rows, and brings a piece of kind `next`
    /// into play. The game is over if that piece lies on a locked cell.
    pub fn lock_block_with(&mut self, next: BlockKind)
        requires
            old(self).inv(),
            old(self)@.lock_fits(),
        ensures
            final(self)@ == old(self)@.after_lock(next),
            final(self).inv(),
    {
        let ghost start = self@;
        proof {
            lemma_inside_offsets(start.block);
            start.lemma_after_lock_wf(next);
            lemma_spawn_is_inside(next);
            assert(self.grid@ =~= committed_first(start.board, start.block, 0)) by {
                assert forall|r: int| 0 <= r < ROWS implies #[trigger] self.grid@[r]
                    == committed_first(start.board, start.block, 0)[r] by {
                    assert(self.grid@[r] =~= committed_first(start.board, start.block, 0)[r]);
                }
            }
        }
        let cells = self.current_block.get_cell_position();
        let kind = self.current_block.kind();
        let mut i: usize = 0;
        while i < 4
            invariant
                i <= 4,
                start.wf(),
                kind == start.block.kind,
                self@ == (GameView { board: self.grid@, ..start }),
                forall|j: int|
                    0 <= j < 4 ==> (#[trigger] cells[j]).0 == start.block.cell(j).0 && cells[j].1
                        == start.block.cell(j).1,
                self.grid@ == committed_first(start.board, start.block, i as int),
                self.grid.wf(),
            decreases 4 - i,
        {
            let ghost before = self.grid@;
            let (col, row) = cells[i];
            assert(!cell_outside(start.block.cell(i as int).1, start.block.cell(i as int).0));
            self.grid.commit(row, col, kind);
            proof {
                let after = committed_first(start.board, start.block, i + 1);
                assert forall|r: int| 0 <= r < ROWS implies #[trigger] self.grid@[r]
                    == after[r] by {
                    assert forall|c: int| 0 <= c < COLS implies #[trigger] self.grid@[r][c]
                        == after[r][c] by {
                        if start.block.cell(i as int) == (c, r) {
                            assert(covers_first(start.block, i + 1, r, c));
                        } else {
                            assert(covers_first(start.block, i + 1, r, c) == covers_first(
                                start.block,
                                i as int,
                                r,
                                c,
                            ));
                        }
                    }
                    assert(self.grid@[r] =~= after[r]);
                }
                assert(self.grid@ =~= after);
            }
            i += 1;
        }
        proof {
            let filled = committed(start.board, start.block);
            assert forall|r: int| 0 <= r < ROWS implies #[trigger] self.grid@[r] == filled[r] by {
                assert forall|c: int| 0 <= c < COLS implies #[trigger] self.grid@[r][c]
                    == filled[r][c] by {
                    assert(covers_first(start.block, 4, r, c) == start.block.covers(r, c));
                }
                assert(self.grid@[r] =~= filled[r]);
            }
            assert(self.grid@ =~= filled);
        }
        let cleared = self.grid.clear_full_rows();
        self.add_score(cleared as u32);
        self.current_block = Block::new(next);
        if !self.block_fits() {
            self.game_over = true;
        }
    }

    /// Locks the piece where it stands and brings a piece of a kind drawn
    /// at random into play.
    pub fn lock_block(&mut self)
        requires
            old(self).inv(),
            old(self)@.lock_fits(),
        ensures
            exists|next: BlockKind| final(self)@ == old(self)@.after_lock(next),
            final(self).inv(),
    {
        self.lock_block_with(BlockKind::random());
    }

    /// Moves the piece one row down if it may stand there, and else locks it
    /// and brings a piece of kind `next` into play.
    pub fn move_block_down_with(&mut self, next: BlockKind)
        requires
            old(self).inv(),
            old(self)@.down_fits(),
        ensures
            final(self)@ == old(self)@.after_down(next),
            final(self).inv(),
    {
        proof {
            lemma_inside_offsets(self@.block);
        }
        self.current_block.move_by(1, 0);
        if self.is_block_outside() || !self.block_fits() {
            self.current_block.move_by(-1, 0);
            self.lock_block_with(next);
        }
    }

    /// Moves the piece one row down if it may stand there, and else locks it
    /// and brings a piece of a kind drawn at random into play.
    pub fn move_block_down(&mut self)
        requires
            old(self).inv(),
            old(self)@.down_fits(),
        ensures
            exists|next: BlockKind| final(self)@ == old(self)@.after_down(next),
            final(self).inv(),
    {
        proof {
            lemma_inside_offsets(self@.block);
        }
        self.current_block.move_by(1, 0);
        if self.is_block_outside() || !self.block_fits() {
            self.current_block.move_by(-1, 0);
            let ghost back = self@;
            self.lock_block();
            proof {
                let next = choose|next: BlockKind| self@ == back.after_lock(next);
                assert(self@ == old(self)@.after_down(next));
            }
        } else {
            assert(self@ == old(self)@.after_down(BlockKind::L));
        }
    }

    /// Lets the piece fall until it can go no further, locks it there, and
    /// brings a piece of kind `next` into play. The piece must lie on no
    /// locked cell when it starts to fall.
    pub fn hard_drop_with(&mut self, next: BlockKind)
        requires
            old(self).inv(),
            old(self)@.accepts(Input::HardDrop),
        ensures
            final(self)@ == old(self)@.after_hard_drop(next),
            final(self).inv(),
    {
        let ghost start = self@;
        proof {
            lemma_inside_offsets(start.block);
            lemma_resting(start.board, start.block);
            start.lemma_after_hard_drop_wf(next);
        }
        while !self.is_block_outside() && self.block_fits()
            invariant
                start.wf(),
                block_allowed(start.board, start.block),
                self@ == start.with_block(self@.block),
                self@.block.wf(),
                self@.block.col_offset == start.block.col_offset,
                start.block.row_offset <= self@.block.row_offset <= ROWS,
                self@.block.representable(),
                self@.block == start.block || block_allowed(
                    start.board,
                    self@.block.moved(-1, 0),
                ),
                resting(start.board, start.block) == if block_allowed(start.board, self@.block) {
                    resting(start.board, self@.block)
                } else {
                    self@.block.moved(-1, 0)
                },
            decreases ROWS - self@.block.row_offset,
        {
            let ghost here = self@.block;
            proof {
                lemma_inside_offsets(here);
            }
            self.current_block.move_by(1, 0);
            proof {
                lemma_near_is_representable(self@.block);
                assert(self@.block.moved(-1, 0) == here);
            }
        }
        self.current_block.move_by(-1, 0);
        self.lock_block_with(next);
    }

    /// Lets the piece fall until it can go no further, locks it there, and
    /// brings a piece of a kind drawn at random into play.
    pub fn hard_drop(&mut self)
        requires
            old(self).inv(),
            old(self)@.accepts(Input::HardDrop),
        ensures
            exists|next: BlockKind| final(self)@ == old(self)@.after_hard_drop(next),
            final(self).inv(),
    {
        self.hard_drop_with(BlockKind::random());
    }

    /// Starts the game anew, with a first piece of kind `next`.
    pub fn reset_with(&mut self, next: BlockKind)
        ensures
            final(self)@ == GameView::initial(next),
            final(self).inv(),
    {
        proof {
            GameView::lemma_initial_wf(next);
        }
        self.grid = Grid::new();
        self.current_block = Block::new(next);
        self.game_over = false;
        self.stats = Stats::default();
    }

    /// Starts the game anew, with a first piece of a kind drawn at random.
    pub fn reset(&mut self)
        ensures
            exists|next: BlockKind| final(self)@ == GameView::initial(next),
            final(self).inv(),
    {
        self.reset_with(BlockKind::random());
    }

    /// Serves the player's input. Where the input brings a new piece into
    /// play, the piece is of kind `next`.
    pub fn handle_input_with(&mut self, input: Input, next: BlockKind)
        requires
            old(self).inv(),
            old(self)@.accepts(input),
        ensures
            final(self)@ == old(self)@.after_input(input, next),
            final(self).inv(),
    {
        match input {
            Input::Left => self.move_block_left(),
            Input::Right => self.move_block_right(),
            Input::RotateCw => self.rotate_block_right(),
            Input::RotateCcw => self.rotate_block_left(),
            Input::HardDrop => self.hard_drop_with(next),
            Input::Reset => self.reset_with(next),
            Input::Idle => {},
        }
    }

    /// Serves the player's input. Where the input brings a new piece into
    /// play, its kind is drawn at random.
    pub fn handle_input(&mut self, input: Input)
        requires
            old(self).inv(),
            old(self)@.accepts(input),
        ensures
            exists|next: BlockKind| final(self)@ == old(self)@.after_input(input, next),
            final(self).inv(),
    {
        match input {
            Input::Left => self.move_block_left(),
            Input::Right => self.move_block_right(),
            Input::RotateCw => self.rotate_block_right(),
            Input::RotateCcw => self.rotate_block_left(),
            Input::HardDrop => self.hard_drop(),
            Input::Reset => self.reset(),
            Input::Idle => {},
        }
        proof {
            let start = old(self)@;
            let next = if input == Input::HardDrop {
                choose|next: BlockKind| self@ == start.after_hard_drop(next)
            } else if input == Input::Reset {
                choose|next: BlockKind| self@ == GameView::initial(next)
            } else {
                BlockKind::L
            };
            assert(self@ == start.after_input(input, next));
        }
    }

    /// One tick of the game: the input is served, then the piece moves a row
    /// down if gravity is due, then the game starts anew if it is over.
    /// `first`, `second` and `third` are the kinds of the pieces that these
    /// three steps bring into play, where they bring one.
    pub fn update_with(
        &mut self,
        input: Input,
        gravity_due: bool,
        first: BlockKind,
        second: BlockKind,
        third: BlockKind,
    )
        requires
            old(self).inv(),
            old(self)@.accepts(input),
            gravity_due ==> old(self)@.after_input(input, first).down_fits(),
        ensures
            final(self)@ == old(self)@.after_update(input, gravity_due, first, second, third),
            final(self).inv(),
            !final(self)@.game_over,
    {
        self.handle_input_with(input, first);
        if gravity_due {
            self.move_block_down_with(second);
        }
        if self.game_over {
            self.reset_with(third);
        }
    }

    /// One tick of the game: the input is served, then the piece moves a row
    /// down if gravity is due, then the game starts anew if it is over. The
    /// kinds of the pieces that come into play are drawn at random.
    pub fn update(&mut self, input: Input, gravity_due: bool)
        requires
            old(self).inv(),
            old(self)@.accepts(input),
            gravity_due ==> forall|next: BlockKind| #[trigger]
                old(self)@.after_input(input, next).down_fits(),
        ensures
            exists|first: BlockKind, second: BlockKind, third: BlockKind| final(self)@ == old(
                self,
            )@.after_update(input, gravity_due, first, second, third),
            final(self).inv(),
            !final(self)@.game_over,
    {
        let ghost start = self@;
        self.handle_input(input);
        let ghost first = choose|next: BlockKind| self@ == start.after_input(input, next);
        let ghost served = self@;
        if gravity_due {
            self.move_block_down();
        }
        let ghost second = if gravity_due {
            choose|next: BlockKind| self@ == served.after_down(next)
        } else {
            first
        };
        let ghost fallen = self@;
        if self.game_over {
            self.reset();
        }
        let ghost third = if fallen.game_over {
            choose|next: BlockKind| self@ == GameView::initial(next)
        } else {
            first
        };
        proof {
            assert(served == start.after_input(input, first));
            assert(fallen == served.after_gravity(gravity_due, second));
            assert(self@ == fallen.restarted_if_over(third));
            assert(self@ == start.after_update(input, gravity_due, first, second, third));
        }
    }

    /// One tick of the game for a caller that has proved nothing: the tick
    /// is made if the game is as every game is, a hard drop would start from
    /// a piece that lies on no locked cell, and there is room for two locks.
    /// Else nothing changes. Returns whether the tick was made.
    pub fn try_update(&mut self, input: Input, gravity_due: bool) -> (done: bool)
        ensures
            done == (old(self).inv() && old(self)@.headroom() && (input == Input::HardDrop
                ==> block_fits(old(self)@.board, old(self)@.block))),
            done ==> exists|first: BlockKind, second: BlockKind, third: BlockKind| final(self)@
                == old(self)@.after_update(input, gravity_due, first, second, third),
            done ==> final(self).inv() && !final(self)@.game_over,
            !done ==> *final(self) == *old(self),
    {
        if !self.is_valid() || !self.has_headroom() {
            return false;
        }
        if input == Input::HardDrop && !self.block_fits() {
            return false;
        }
        proof {
            self@.lemma_headroom_is_enough(input);
        }
        self.update(input, gravity_due);
        true
    }
}

} // verus!
