//! The state of a game as a mathematical object, and the one transition that
//! a game has: a player drops a disc into a column.

use vstd::prelude::*;
use crate::board::{has_four, has_run, wins_at, Discs, COLUMNS, ROWS};
use crate::board::{lemma_new_run_passes_through, lemma_run_persists, lemma_win_is_run};
use crate::error::Error;
use crate::player::Player;

verus! {

/// Sum of the entries of `fills`.
pub open spec fn total(fills: Seq<nat>) -> nat
    decreases fills.len(),
{
    if fills.len() == 0 {
        0
    } else {
        total(fills.drop_last()) + fills.last()
    }
}

/// Replacing one entry changes the sum by the difference of the two values.
pub proof fn lemma_total_update(fills: Seq<nat>, index: int, value: nat)
    requires
        0 <= index < fills.len(),
    ensures
        total(fills.update(index, value)) == total(fills) - fills[index] + value,
    decreases fills.len(),
{
    let updated = fills.update(index, value);
    if index == fills.len() - 1 {
        assert(updated.drop_last() == fills.drop_last());
    } else {
        lemma_total_update(fills.drop_last(), index, value);
        assert(updated.drop_last() == fills.drop_last().update(index, value));
    }
}

/// Entries that are at most `bound` sum to at most `bound` times their
/// number, and reach that sum only if each of them equals `bound`.
pub proof fn lemma_total_bound(fills: Seq<nat>, bound: nat)
    requires
        forall|i: int| 0 <= i < fills.len() ==> fills[i] <= bound,
    ensures
        total(fills) <= bound * fills.len(),
        total(fills) == bound * fills.len() ==> forall|i: int|
            0 <= i < fills.len() ==> fills[i] == bound,
    decreases fills.len(),
{
    if fills.len() > 0 {
        let front = fills.drop_last();
        lemma_total_bound(front, bound);
        assert(bound * fills.len() == bound * front.len() + bound) by (nonlinear_arith)
            requires
                fills.len() == front.len() + 1,
        ;
        if total(fills) == bound * fills.len() {
            assert forall|i: int| 0 <= i < fills.len() implies fills[i] == bound by {
                if i < front.len() {
                    assert(front[i] == bound);
                }
            }
        }
    } else {
        assert(bound * fills.len() == 0) by (nonlinear_arith)
            requires
                fills.len() == 0,
        ;
    }
}

/// Entries that all equal `bound` sum to `bound` times their number.
pub proof fn lemma_total_full(fills: Seq<nat>, bound: nat)
    requires
        forall|i: int| 0 <= i < fills.len() ==> fills[i] == bound,
    ensures
        total(fills) == bound * fills.len(),
    decreases fills.len(),
{
    if fills.len() > 0 {
        let front = fills.drop_last();
        lemma_total_full(front, bound);
        assert(bound * fills.len() == bound * front.len() + bound) by (nonlinear_arith)
            requires
                fills.len() == front.len() + 1,
        ;
    } else {
        assert(bound * fills.len() == 0) by (nonlinear_arith)
            requires
                fills.len() == 0,
        ;
    }
}

/// Everything that a game consists of at one moment.
pub struct GameState {
    /// The discs on the board, by position `(row, column)`.
    pub discs: Discs,
    /// For each column, the number of discs that rest in it.
    pub fills: Seq<nat>,
    /// The player who moves next.
    pub player: Player,
    /// The player who last completed a line of four, if any did.
    pub winner: Option<Player>,
    /// The number of discs dropped so far.
    pub turns: nat,
}

impl GameState {
    /// The state in which every game starts: an empty board, `Player::One`
    /// to move, no winner.
    pub open spec fn initial() -> GameState {
        GameState {
            discs: Map::empty(),
            fills: Seq::new(COLUMNS as nat, |column: int| 0nat),
            player: Player::One,
            winner: None,
            turns: 0,
        }
    }

    /// What holds of every state that a game can reach.
    ///
    /// The discs of a column are exactly its bottom `fills[column]` cells;
    /// `turns` counts the discs, as the number of occupied cells and as the
    /// sum of the fills; the players alternate, `Player::One` moving on even
    /// counts; a winner is recorded exactly when the board holds a line of
    /// four, and the recorded winner owns one.
    pub open spec fn wf(self) -> bool {
        &&& self.fills.len() == COLUMNS
        &&& forall|column: int| 0 <= column < COLUMNS ==> #[trigger] self.fills[column] <= ROWS
        &&& forall|row: int, column: int| #[trigger]
            self.discs.dom().contains((row, column)) <==> 0 <= column < COLUMNS && ROWS
                - self.fills[column] <= row < ROWS
        &&& self.discs.dom().finite()
        &&& self.discs.dom().len() == self.turns
        &&& total(self.fills) == self.turns
        &&& self.player == if self.turns % 2 == 0 {
            Player::One
        } else {
            Player::Two
        }
        &&& self.winner is Some <==> has_four(self.discs)
        &&& self.winner matches Some(player) ==> has_run(self.discs, player)
    }

    /// Whether `column` has no empty cell left.
    pub open spec fn column_full(self, column: int) -> bool {
        self.fills[column] == ROWS
    }

    /// Whether the game has ended: somebody has won, or the board is full.
    pub open spec fn over(self) -> bool {
        self.winner is Some || self.turns == ROWS * COLUMNS
    }

    /// Why a move into `column` is rejected, if it is: the column lies
    /// outside the grid, or it is full.
    pub open spec fn rejection(self, column: int) -> Option<Error> {
        if !(0 <= column < COLUMNS) {
            Some(Error::InvalidColumn)
        } else if self.column_full(column) {
            Some(Error::ColumnFull)
        } else {
            None
        }
    }

    /// Whether a move into `column` is accepted.
    pub open spec fn accepts(self, column: int) -> bool {
        self.rejection(column) is None
    }

    /// The row in which a disc dropped into `column` comes to rest: the
    /// lowest empty cell of that column.
    pub open spec fn landing_row(self, column: int) -> int {
        ROWS - 1 - self.fills[column]
    }

    /// The state after the player to move has dropped a disc into `column`,
    /// for a move that is accepted. The winner is decided before the turn
    /// passes on: it is the mover if the new disc lies on a line of four, and
    /// stays as it was otherwise.
    pub open spec fn drop_disc(self, column: int) -> GameState {
        let row = self.landing_row(column);
        let discs = self.discs.insert((row, column), self.player);
        GameState {
            discs,
            fills: self.fills.update(column, self.fills[column] + 1),
            player: self.player.other(),
            winner: if wins_at(discs, row, column) {
                Some(self.player)
            } else {
                self.winner
            },
            turns: self.turns + 1,
        }
    }

    /// The state after a move into `column` was tried: the disc is dropped if
    /// the move is accepted, and nothing changes if it is rejected.
    pub open spec fn attempt(self, column: int) -> GameState {
        if self.accepts(column) {
            self.drop_disc(column)
        } else {
            self
        }
    }

    /// The initial state is one that a game can be in.
    pub proof fn lemma_initial_wf()
        ensures
            GameState::initial().wf(),
    {
        let start = GameState::initial();
        lemma_total_full(start.fills, 0);
        assert(!has_run(start.discs, Player::One));
        assert(!has_run(start.discs, Player::Two));
    }

    /// The number of discs never exceeds the number of cells, and reaches it
    /// exactly when every column is full.
    pub proof fn lemma_turns_bounded(self)
        requires
            self.wf(),
        ensures
            self.turns <= ROWS * COLUMNS,
            self.turns == ROWS * COLUMNS <==> forall|column: int|
                0 <= column < COLUMNS ==> self.column_full(column),
    {
        lemma_total_bound(self.fills, ROWS as nat);
        if forall|column: int| 0 <= column < COLUMNS ==> self.column_full(column) {
            assert forall|i: int| 0 <= i < self.fills.len() implies self.fills[i] == ROWS by {
                assert(self.column_full(i));
            }
            lemma_total_full(self.fills, ROWS as nat);
        }
    }

    /// While the game goes on, some move is accepted: a game cannot get stuck
    /// before it is over.
    pub proof fn lemma_move_exists(self)
        requires
            self.wf(),
            !self.over(),
        ensures
            exists|column: int| #[trigger] self.accepts(column),
    {
        self.lemma_turns_bounded();
        let column = choose|column: int| 0 <= column < COLUMNS && !self.column_full(column);
        assert(self.accepts(column));
    }

    /// An accepted move leads from a reachable state to a reachable state.
    pub proof fn lemma_drop_preserves_wf(self, column: int)
        requires
            self.wf(),
            self.accepts(column),
        ensures
            self.drop_disc(column).wf(),
    {
        let row = self.landing_row(column);
        let next = self.drop_disc(column);
        assert(!self.discs.dom().contains((row, column)));
        assert(next.discs.dom() == self.discs.dom().insert((row, column)));
        lemma_total_update(self.fills, column, self.fills[column] + 1);
        assert forall|r: int, c: int| #[trigger]
            next.discs.dom().contains((r, c)) <==> 0 <= c < COLUMNS && ROWS - next.fills[c] <= r
                < ROWS by {
            assert(self.discs.dom().contains((r, c)) <==> 0 <= c < COLUMNS && ROWS
                - self.fills[c] <= r < ROWS);
        }
        self.lemma_drop_decides_winner(column);
    }

    /// After an accepted move a winner is recorded exactly when the board
    /// holds a line of four, and the recorded winner owns one.
    proof fn lemma_drop_decides_winner(self, column: int)
        requires
            self.wf(),
            self.accepts(column),
        ensures
            self.drop_disc(column).winner is Some <==> has_four(self.drop_disc(column).discs),
            self.drop_disc(column).winner matches Some(player) ==> has_run(
                self.drop_disc(column).discs,
                player,
            ),
    {
        let row = self.landing_row(column);
        let next = self.drop_disc(column);
        assert(!self.discs.dom().contains((row, column)));
        if wins_at(next.discs, row, column) {
            lemma_win_is_run(next.discs, row, column);
        } else {
            if has_run(self.discs, Player::One) {
                lemma_run_persists(self.discs, row, column, self.player, Player::One);
            } else if has_run(next.discs, Player::One) {
                lemma_new_run_passes_through(self.discs, row, column, self.player, Player::One);
            }
            if has_run(self.discs, Player::Two) {
                lemma_run_persists(self.discs, row, column, self.player, Player::Two);
            } else if has_run(next.discs, Player::Two) {
                lemma_new_run_passes_through(self.discs, row, column, self.player, Player::Two);
            }
            if let Some(player) = self.winner {
                lemma_run_persists(self.discs, row, column, self.player, player);
            }
        }
    }
}

} // verus!
