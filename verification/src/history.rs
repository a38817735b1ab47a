//! Whole games: what holds of the state that a sequence of moves leads to.
//!
//! A game is told as the sequence of columns that were tried, accepted or
//! not, from a new game on. The engine follows that sequence step by step:
//! `ConnectFour::new` starts in `GameState::initial()`, `ConnectFour::play`
//! takes the state to `attempt(column)`, and so the engine is in
//! `replay(moves)` after the moves were tried in order.

use vstd::prelude::*;
use crate::board::{has_four, wins_at, COLUMNS, ROWS};
use crate::board::lemma_win_is_run;
use crate::error::Error;
use crate::player::Player;
use crate::state::GameState;

verus! {

/// The state of a new game after the columns of `moves` were tried in order.
pub open spec fn replay(moves: Seq<int>) -> GameState
    decreases moves.len(),
{
    if moves.len() == 0 {
        GameState::initial()
    } else {
        replay(moves.drop_last()).attempt(moves.last())
    }
}

/// How many of `moves` were accepted.
pub open spec fn accepted(moves: Seq<int>) -> nat
    decreases moves.len(),
{
    if moves.len() == 0 {
        0
    } else {
        let earlier = accepted(moves.drop_last());
        if replay(moves.drop_last()).accepts(moves.last()) {
            earlier + 1
        } else {
            earlier
        }
    }
}

/// How many of `moves` went into `column` and were accepted.
pub open spec fn accepted_into(moves: Seq<int>, column: int) -> nat
    decreases moves.len(),
{
    if moves.len() == 0 {
        0
    } else {
        let earlier = accepted_into(moves.drop_last(), column);
        if moves.last() == column && replay(moves.drop_last()).accepts(column) {
            earlier + 1
        } else {
            earlier
        }
    }
}

/// Whether no disc of `moves` was dropped into a game that was over: a move
/// that follows the end of the game, if there is one, was rejected.
pub open spec fn stops_when_over(moves: Seq<int>) -> bool {
    forall|i: int|
        0 <= i < moves.len() ==> !(#[trigger] replay(moves.take(i)).over() && replay(
            moves.take(i),
        ).accepts(moves[i]))
}

/// One more move takes the game one step further: an engine that is in
/// `replay(moves)` is in `replay(moves.push(column))` after `column` was
/// tried.
pub proof fn lemma_replay_push(moves: Seq<int>, column: int)
    ensures
        replay(moves.push(column)) == replay(moves).attempt(column),
{
    assert(moves.push(column).drop_last() == moves);
}

/// Every state that a game reaches is well formed.
pub proof fn lemma_replay_wf(moves: Seq<int>)
    ensures
        replay(moves).wf(),
    decreases moves.len(),
{
    if moves.len() == 0 {
        GameState::lemma_initial_wf();
    } else {
        let before = replay(moves.drop_last());
        lemma_replay_wf(moves.drop_last());
        if before.accepts(moves.last()) {
            before.lemma_drop_preserves_wf(moves.last());
        }
    }
}

/// The turn count is the number of moves that were accepted, and it is the
/// number of cells that hold a disc.
pub proof fn lemma_turns_count_accepted_moves(moves: Seq<int>)
    ensures
        replay(moves).turns == accepted(moves),
        replay(moves).turns == replay(moves).discs.dom().len(),
    decreases moves.len(),
{
    lemma_replay_wf(moves);
    if moves.len() > 0 {
        lemma_turns_count_accepted_moves(moves.drop_last());
    }
}

/// The fill of a column is the number of accepted moves into it.
pub proof fn lemma_fill_counts_accepted_moves(moves: Seq<int>, column: int)
    requires
        0 <= column < COLUMNS,
    ensures
        replay(moves).fills[column] == accepted_into(moves, column),
    decreases moves.len(),
{
    if moves.len() > 0 {
        lemma_replay_wf(moves.drop_last());
        lemma_fill_counts_accepted_moves(moves.drop_last(), column);
    }
}

/// Once as many moves into a column were accepted as the grid has rows,
/// whatever was played elsewhere in between, the column is full: a further
/// move into it is rejected as `ColumnFull` and changes nothing.
pub proof fn lemma_column_fills_up(moves: Seq<int>, column: int)
    requires
        0 <= column < COLUMNS,
        accepted_into(moves, column) == ROWS,
    ensures
        replay(moves).column_full(column),
        replay(moves).rejection(column) == Some(Error::ColumnFull),
        replay(moves.push(column)) == replay(moves),
{
    lemma_fill_counts_accepted_moves(moves, column);
    lemma_replay_push(moves, column);
}

/// No column ever takes more accepted moves than the grid has rows.
pub proof fn lemma_column_takes_at_most_rows(moves: Seq<int>, column: int)
    requires
        0 <= column < COLUMNS,
    ensures
        accepted_into(moves, column) <= ROWS,
{
    lemma_replay_wf(moves);
    lemma_fill_counts_accepted_moves(moves, column);
}

/// A winner, once recorded, is never cleared by further moves.
pub proof fn lemma_winner_stays_recorded(moves: Seq<int>, earlier: int)
    requires
        0 <= earlier <= moves.len(),
        replay(moves.take(earlier)).winner is Some,
    ensures
        replay(moves).winner is Some,
    decreases moves.len(),
{
    if earlier == moves.len() {
        assert(moves.take(earlier) == moves);
    } else {
        assert(moves.drop_last().take(earlier) == moves.take(earlier));
        lemma_winner_stays_recorded(moves.drop_last(), earlier);
    }
}

/// In a game in which no disc is dropped after the end, the winner is
/// decided once: whoever is recorded as the winner at some moment is the
/// winner at every later moment.
pub proof fn lemma_winner_is_decided_once(moves: Seq<int>, earlier: int)
    requires
        stops_when_over(moves),
        0 <= earlier <= moves.len(),
        replay(moves.take(earlier)).winner is Some,
    ensures
        replay(moves).winner == replay(moves.take(earlier)).winner,
    decreases moves.len(),
{
    if earlier == moves.len() {
        assert(moves.take(earlier) == moves);
    } else {
        let front = moves.drop_last();
        assert(front.take(earlier) == moves.take(earlier));
        assert forall|i: int| 0 <= i < front.len() implies !(#[trigger] replay(
            front.take(i),
        ).over() && replay(front.take(i)).accepts(front[i])) by {
            assert(front.take(i) == moves.take(i));
        }
        lemma_winner_is_decided_once(front, earlier);
        // The game was over before the last move, so that move was rejected.
        assert(moves.take(moves.len() - 1) == front);
        assert(replay(moves.take(moves.len() - 1)).over());
    }
}

/// In a game in which no disc is dropped after the end, a winner is recorded
/// exactly when the disc that was dropped last lies on a line of four, and
/// the winner is the player who dropped it.
pub proof fn lemma_last_disc_decides(moves: Seq<int>)
    requires
        stops_when_over(moves),
        moves.len() > 0,
        replay(moves.drop_last()).accepts(moves.last()),
    ensures
        replay(moves).winner is Some <==> wins_at(
            replay(moves).discs,
            replay(moves.drop_last()).landing_row(moves.last()),
            moves.last(),
        ),
        replay(moves).winner is Some ==> replay(moves).winner == Some(
            replay(moves.drop_last()).player,
        ),
{
    let last = moves.len() - 1;
    assert(moves.take(last) == moves.drop_last());
    assert(!replay(moves.take(last)).over());
}

/// A winner is recorded exactly when a scan of the whole board finds a line
/// of four: looking only at the lines through each new disc misses none.
pub proof fn lemma_winner_agrees_with_scan(moves: Seq<int>)
    ensures
        replay(moves).winner is Some <==> has_four(replay(moves).discs),
{
    lemma_replay_wf(moves);
}

/// While nobody has won, looking at the lines through the disc just dropped
/// decides as a scan of the whole board does: the new disc lies on a line of
/// four exactly if the board then holds one, and then the mover wins.
pub proof fn lemma_detection_agrees_with_scan(state: GameState, column: int)
    requires
        state.wf(),
        state.winner is None,
        state.accepts(column),
    ensures
        wins_at(state.drop_disc(column).discs, state.landing_row(column), column) <==> has_four(
            state.drop_disc(column).discs,
        ),
        has_four(state.drop_disc(column).discs) <==> state.drop_disc(column).winner == Some(
            state.player,
        ),
{
    let row = state.landing_row(column);
    let next = state.drop_disc(column);
    assert(!state.discs.dom().contains((row, column)));
    if wins_at(next.discs, row, column) {
        lemma_win_is_run(next.discs, row, column);
    } else {
        state.lemma_drop_preserves_wf(column);
    }
}

/// The players take turns: `Player::One` is to move exactly when an even
/// number of moves was accepted.
pub proof fn lemma_players_alternate(moves: Seq<int>)
    ensures
        replay(moves).player == if accepted(moves) % 2 == 0 {
            Player::One
        } else {
            Player::Two
        },
{
    lemma_replay_wf(moves);
    lemma_turns_count_accepted_moves(moves);
}

} // verus!
