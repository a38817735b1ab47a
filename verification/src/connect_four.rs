//! The engine: the grid, the fill of each column, whose turn it is, who has
//! won, and the one operation that changes them.

use vstd::prelude::*;
use crate::board::{cell_at, confined, line_through, on_board, window};
use crate::board::{lemma_line_through_windows, lemma_window_on_board};
use crate::board::{Direction, Discs, CELLS, COLUMNS, ROWS};
use crate::error::Error;
use crate::player::Player;
use crate::state::GameState;

verus! {

/// A game in progress.
#[derive(Clone, Copy, Debug, PartialEq, Eq)]
pub struct ConnectFour {
    /// The game grid in row-major order.
    grid: [Option<Player>; CELLS],
    /// The number of coins in each column.
    coins: [usize; COLUMNS],
    /// The current player.
    player: Player,
    /// The winner of the game.
    winner: Option<Player>,
    /// The number of turns that have passed.
    turns: usize,
}

impl View for ConnectFour {
    type V = GameState;

    /// The game as a mathematical object.
    closed spec fn view(&self) -> GameState {
        GameState {
            discs: discs_of(self.grid@),
            fills: Seq::new(COLUMNS as nat, |column: int| self.coins@[column] as nat),
            player: self.player,
            winner: self.winner,
            turns: self.turns as nat,
        }
    }
}

/// The discs that a grid holds, by position, where `cells` lists the cells
/// of the grid row after row.
#[verifier::opaque]
spec fn discs_of(cells: Seq<Option<Player>>) -> Discs {
    Map::new(
        |position: (int, int)|
            on_board(position.0, position.1) && cells[COLUMNS * position.0 + position.1] is Some,
        |position: (int, int)| cells[COLUMNS * position.0 + position.1]->0,
    )
}

/// A grid holds discs on its own cells only.
proof fn lemma_discs_of_confined(cells: Seq<Option<Player>>)
    ensures
        confined(discs_of(cells)),
{
    reveal(discs_of);
}

/// A cell of the grid is found at its row-major index.
proof fn lemma_discs_of_cell(cells: Seq<Option<Player>>, row: int, column: int)
    requires
        on_board(row, column),
    ensures
        cells[COLUMNS * row + column] == cell_at(discs_of(cells), row, column),
{
    reveal(discs_of);
}

/// A grid of empty cells holds no disc.
proof fn lemma_discs_of_empty(cells: Seq<Option<Player>>)
    requires
        forall|index: int| 0 <= index < CELLS ==> cells[index] is None,
    ensures
        discs_of(cells) == Map::<(int, int), Player>::empty(),
{
    reveal(discs_of);
    assert(discs_of(cells) =~= Map::<(int, int), Player>::empty());
}

/// Writing a disc to the row-major index of a cell puts it on that cell and
/// leaves every other cell as it was.
proof fn lemma_discs_of_update(cells: Seq<Option<Player>>, row: int, column: int, player: Player)
    requires
        cells.len() == CELLS,
        on_board(row, column),
    ensures
        discs_of(cells.update(COLUMNS * row + column, Some(player))) == discs_of(cells).insert(
            (row, column),
            player,
        ),
{
    reveal(discs_of);
    let index = COLUMNS * row + column;
    let updated = cells.update(index, Some(player));
    assert forall|position: (int, int)| on_board(position.0, position.1) && position != (
        row,
        column,
    ) implies updated[COLUMNS * position.0 + position.1] == cells[COLUMNS * position.0
        + position.1] by {
        // Two cells share an index only if they share row and column.
        assert(COLUMNS * position.0 + position.1 != index);
    }
    assert(discs_of(updated) =~= discs_of(cells).insert((row, column), player));
}

impl ConnectFour {
    /// Whether this value is a state that a game can reach.
    pub open spec fn wf(&self) -> bool {
        self@.wf()
    }

    /// Creates a new game.
    pub fn new() -> (game: Self)
        ensures
            game.wf(),
            game@ == GameState::initial(),
    {
        let game = Self {
            grid: [None; CELLS],
            coins: [0; COLUMNS],
            player: Player::One,
            winner: None,
            turns: 0,
        };
        proof {
            lemma_discs_of_empty(game.grid@);
            assert(game@.fills =~= GameState::initial().fills);
            GameState::lemma_initial_wf();
        }
        game
    }

    /// Returns the current player.
    pub fn player(&self) -> (player: Player)
        ensures
            player == self@.player,
    {
        self.player
    }

    /// Returns the winner of the game.
    pub fn winner(&self) -> (winner: Option<Player>)
        ensures
            winner == self@.winner,
    {
        self.winner
    }

    /// Returns the number of turns that have passed: the number of discs on
    /// the board.
    pub fn turns(&self) -> (turns: usize)
        ensures
            turns == self@.turns,
    {
        self.turns
    }

    /// Returns the number of rows in the grid.
    pub fn rows(&self) -> (rows: usize)
        ensures
            rows == ROWS,
    {
        ROWS
    }

    /// Returns the number of columns in the grid.
    pub fn columns(&self) -> (columns: usize)
        ensures
            columns == COLUMNS,
    {
        COLUMNS
    }

    /// Returns the size of the grid.
    pub fn size(&self) -> (size: usize)
        ensures
            size == ROWS * COLUMNS,
    {
        self.grid.len()
    }

    /// Returns `true` if the game is over.
    pub fn over(&self) -> (over: bool)
        ensures
            over == self@.over(),
    {
        self.winner.is_some() || self.turns == self.size()
    }

    /// Returns the last valid row in the grid.
    pub fn last_row(&self) -> (row: usize)
        ensures
            row == ROWS - 1,
    {
        self.rows() - 1
    }

    /// Returns the last valid column in the grid.
    pub fn last_column(&self) -> (column: usize)
        ensures
            column == COLUMNS - 1,
    {
        self.columns() - 1
    }

    /// Returns `true` if the given column is full, and `InvalidColumn` for a
    /// column outside the grid.
    pub fn is_column_full(&self, column: usize) -> (full: Result<bool, Error>)
        ensures
            column < COLUMNS ==> full == Ok::<bool, Error>(self@.column_full(column as int)),
            column >= COLUMNS ==> full == Err::<bool, Error>(Error::InvalidColumn),
    {
        if column >= self.columns() {
            return Err(Error::InvalidColumn);
        }
        Ok(self.coins[column] == self.rows())
    }

    /// Returns the index of the given position in the grid.
    fn get_index(&self, row: usize, column: usize) -> (index: usize)
        requires
            row < ROWS,
            column < COLUMNS,
        ensures
            index == COLUMNS * row + column,
            index < CELLS,
            self.grid@[index as int] == cell_at(self@.discs, row as int, column as int),
    {
        proof {
            lemma_discs_of_cell(self.grid@, row as int, column as int);
        }
        self.columns() * row + column
    }

    /// Returns the player at the given position, and `OutOfBounds` for a
    /// position outside the grid.
    pub fn get(&self, row: usize, column: usize) -> (cell: Result<Option<Player>, Error>)
        ensures
            on_board(row as int, column as int) ==> cell == Ok::<Option<Player>, Error>(
                cell_at(self@.discs, row as int, column as int),
            ),
            !on_board(row as int, column as int) ==> cell == Err::<Option<Player>, Error>(
                Error::OutOfBounds,
            ),
    {
        if row >= self.rows() || column >= self.columns() {
            return Err(Error::OutOfBounds);
        }
        Ok(self.grid[self.get_index(row, column)])
    }

    /// Whether the four cells are occupied by one and the same player.
    fn match_players(
        &self,
        first: Option<Player>,
        second: Option<Player>,
        third: Option<Player>,
        fourth: Option<Player>,
    ) -> (matched: bool)
        ensures
            matched == (first is Some && first == second && second == third && third == fourth),
    {
        first.is_some() && first == second && second == third && third == fourth
    }

    /// Whether the disc at the given position lies on a line of four along
    /// its row.
    fn match_row(&self, row: usize, column: usize) -> (matched: bool)
        requires
            row < ROWS,
            column < COLUMNS,
        ensures
            matched == line_through(self@.discs, row as int, column as int, Direction::Row),
    {
        let min_offset = 3 - column.min(3);
        let max_offset = (self.last_column() - column).min(3);

        let ghost position = (row as int, column as int);
        let mut offset = min_offset;
        while offset <= max_offset
            invariant
                position == (row as int, column as int),
                row < ROWS,
                column + min_offset >= 3,
                column + max_offset < COLUMNS,
                min_offset <= offset,
                max_offset <= 3,
                forall|earlier: int|
                    min_offset <= earlier < offset ==> !#[trigger] window(
                        self@.discs,
                        position.0,
                        position.1,
                        Direction::Row,
                        earlier,
                    ),
            decreases 4 - offset,
        {
            let column = column + offset;
            if self.match_players(
                self.grid[self.get_index(row, column)],
                self.grid[self.get_index(row, column - 1)],
                self.grid[self.get_index(row, column - 2)],
                self.grid[self.get_index(row, column - 3)],
            ) {
                proof {
                    assert(window(
                        self@.discs,
                        position.0,
                        position.1,
                        Direction::Row,
                        offset as int,
                    ));
                    lemma_line_through_windows(
                        self@.discs,
                        position.0,
                        position.1,
                        Direction::Row,
                    );
                }
                return true;
            }
            offset += 1;
        }
        proof {
            // A window that the loop left out would leave the grid.
            lemma_discs_of_confined(self.grid@);
            assert forall|other: int| 0 <= other <= 3 implies !window(
                self@.discs,
                position.0,
                position.1,
                Direction::Row,
                other,
            ) by {
                if window(self@.discs, position.0, position.1, Direction::Row, other) {
                    lemma_window_on_board(
                        self@.discs,
                        position.0,
                        position.1,
                        Direction::Row,
                        other,
                    );
                }
            }
            lemma_line_through_windows(
                self@.discs,
                position.0,
                position.1,
                Direction::Row,
            );
        }
        false
    }

    /// Whether the disc at the given position lies on a line of four along
    /// its column.
    fn match_column(&self, row: usize, column: usize) -> (matched: bool)
        requires
            row < ROWS,
            column < COLUMNS,
        ensures
            matched == line_through(self@.discs, row as int, column as int, Direction::Column),
    {
        let min_offset = 3 - row.min(3);
        let max_offset = (self.last_row() - row).min(3);

        let ghost position = (row as int, column as int);
        let mut offset = min_offset;
        while offset <= max_offset
            invariant
                position == (row as int, column as int),
                column < COLUMNS,
                row + min_offset >= 3,
                row + max_offset < ROWS,
                min_offset <= offset,
                max_offset <= 3,
                forall|earlier: int|
                    min_offset <= earlier < offset ==> !#[trigger] window(
                        self@.discs,
                        position.0,
                        position.1,
                        Direction::Column,
                        earlier,
                    ),
            decreases 4 - offset,
        {
            let row = row + offset;
            if self.match_players(
                self.grid[self.get_index(row, column)],
                self.grid[self.get_index(row - 1, column)],
                self.grid[self.get_index(row - 2, column)],
                self.grid[self.get_index(row - 3, column)],
            ) {
                proof {
                    assert(window(
                        self@.discs,
                        position.0,
                        position.1,
                        Direction::Column,
                        offset as int,
                    ));
                    lemma_line_through_windows(
                        self@.discs,
                        position.0,
                        position.1,
                        Direction::Column,
                    );
                }
                return true;
            }
            offset += 1;
        }
        proof {
            // A window that the loop left out would leave the grid.
            lemma_discs_of_confined(self.grid@);
            assert forall|other: int| 0 <= other <= 3 implies !window(
                self@.discs,
                position.0,
                position.1,
                Direction::Column,
                other,
            ) by {
                if window(self@.discs, position.0, position.1, Direction::Column, other) {
                    lemma_window_on_board(
                        self@.discs,
                        position.0,
                        position.1,
                        Direction::Column,
                        other,
                    );
                }
            }
            lemma_line_through_windows(
                self@.discs,
                position.0,
                position.1,
                Direction::Column,
            );
        }
        false
    }

    /// Whether the disc at the given position lies on a line of four along
    /// the diagonal that descends to the right.
    fn match_diagonal(&self, row: usize, column: usize) -> (matched: bool)
        requires
            row < ROWS,
            column < COLUMNS,
        ensures
            matched == line_through(self@.discs, row as int, column as int, Direction::Diagonal),
    {
        let min_offset = 3 - row.min(column).min(3);
        let max_offset = (self.last_row() - row).min(self.last_column() - column).min(3);

        let ghost position = (row as int, column as int);
        let mut offset = min_offset;
        while offset <= max_offset
            invariant
                position == (row as int, column as int),
                row + min_offset >= 3,
                column + min_offset >= 3,
                row + max_offset < ROWS,
                column + max_offset < COLUMNS,
                min_offset <= offset,
                max_offset <= 3,
                forall|earlier: int|
                    min_offset <= earlier < offset ==> !#[trigger] window(
                        self@.discs,
                        position.0,
                        position.1,
                        Direction::Diagonal,
                        earlier,
                    ),
            decreases 4 - offset,
        {
            let row = row + offset;
            let column = column + offset;
            if self.match_players(
                self.grid[self.get_index(row, column)],
                self.grid[self.get_index(row - 1, column - 1)],
                self.grid[self.get_index(row - 2, column - 2)],
                self.grid[self.get_index(row - 3, column - 3)],
            ) {
                proof {
                    assert(window(
                        self@.discs,
                        position.0,
                        position.1,
                        Direction::Diagonal,
                        offset as int,
                    ));
                    lemma_line_through_windows(
                        self@.discs,
                        position.0,
                        position.1,
                        Direction::Diagonal,
                    );
                }
                return true;
            }
            offset += 1;
        }
        proof {
            // A window that the loop left out would leave the grid.
            lemma_discs_of_confined(self.grid@);
            assert forall|other: int| 0 <= other <= 3 implies !window(
                self@.discs,
                position.0,
                position.1,
                Direction::Diagonal,
                other,
            ) by {
                if window(self@.discs, position.0, position.1, Direction::Diagonal, other) {
                    lemma_window_on_board(
                        self@.discs,
                        position.0,
                        position.1,
                        Direction::Diagonal,
                        other,
                    );
                }
            }
            lemma_line_through_windows(
                self@.discs,
                position.0,
                position.1,
                Direction::Diagonal,
            );
        }
        false
    }

    /// Whether the disc at the given position lies on a line of four along
    /// the diagonal that descends to the left.
    fn match_alternate_diagonal(&self, row: usize, column: usize) -> (matched: bool)
        requires
            row < ROWS,
            column < COLUMNS,
        ensures
            matched == line_through(
                self@.discs,
                row as int,
                column as int,
                Direction::AlternateDiagonal,
            ),
    {
        let min_offset = 3 - row.min(self.last_column() - column).min(3);
        let max_offset = (self.last_row() - row).min(column).min(3);

        let ghost position = (row as int, column as int);
        let mut offset = min_offset;
        while offset <= max_offset
            invariant
                position == (row as int, column as int),
                row + min_offset >= 3,
                column + 3 - min_offset < COLUMNS,
                row + max_offset < ROWS,
                max_offset <= column,
                min_offset <= offset,
                max_offset <= 3,
                forall|earlier: int|
                    min_offset <= earlier < offset ==> !#[trigger] window(
                        self@.discs,
                        position.0,
                        position.1,
                        Direction::AlternateDiagonal,
                        earlier,
                    ),
            decreases 4 - offset,
        {
            let row = row + offset;
            let column = column - offset;
            if self.match_players(
                self.grid[self.get_index(row, column)],
                self.grid[self.get_index(row - 1, column + 1)],
                self.grid[self.get_index(row - 2, column + 2)],
                self.grid[self.get_index(row - 3, column + 3)],
            ) {
                proof {
                    assert(window(
                        self@.discs,
                        position.0,
                        position.1,
                        Direction::AlternateDiagonal,
                        offset as int,
                    ));
                    lemma_line_through_windows(
                        self@.discs,
                        position.0,
                        position.1,
                        Direction::AlternateDiagonal,
                    );
                }
                return true;
            }
            offset += 1;
        }
        proof {
            // A window that the loop left out would leave the grid.
            lemma_discs_of_confined(self.grid@);
            assert forall|other: int| 0 <= other <= 3 implies !window(
                self@.discs,
                position.0,
                position.1,
                Direction::AlternateDiagonal,
                other,
            ) by {
                if window(
                    self@.discs,
                    position.0,
                    position.1,
                    Direction::AlternateDiagonal,
                    other,
                ) {
                    lemma_window_on_board(
                        self@.discs,
                        position.0,
                        position.1,
                        Direction::AlternateDiagonal,
                        other,
                    );
                }
            }
            lemma_line_through_windows(
                self@.discs,
                position.0,
                position.1,
                Direction::AlternateDiagonal,
            );
        }
        false
    }

    /// Plays the game at the given column: the current player's disc falls to
    /// the lowest empty cell of the column, and the row in which it landed is
    /// returned. The move is rejected, and nothing changes, if the column
    /// lies outside the grid or is full. A disc that completes a line of four
    /// makes its owner the winner; the turn passes to the opponent either
    /// way. A game that is over still accepts moves: to stop is left to the
    /// caller.
    pub fn play(&mut self, column: usize) -> (landed: Result<usize, Error>)
        requires
            old(self).wf(),
        ensures
            final(self).wf(),
            final(self)@ == old(self)@.attempt(column as int),
            landed == match old(self)@.rejection(column as int) {
                Some(error) => Err::<usize, Error>(error),
                None => Ok::<usize, Error>(old(self)@.landing_row(column as int) as usize),
            },
    {
        if self.is_column_full(column)? {
            return Err(Error::ColumnFull);
        }
        let ghost before = old(self)@;
        let ghost after = before.drop_disc(column as int);
        proof {
            before.lemma_turns_bounded();
            before.lemma_drop_preserves_wf(column as int);
        }

        let row = self.last_row() - self.coins[column];
        let index = self.get_index(row, column);
        self.grid[index] = Some(self.player);
        self.coins[column] += 1;
        proof {
            lemma_discs_of_update(old(self).grid@, row as int, column as int, self.player);
            assert(self@.discs == after.discs);
        }

        if self.match_row(row, column)
            || self.match_column(row, column)
            || self.match_diagonal(row, column)
            || self.match_alternate_diagonal(row, column)
        {
            self.winner = Some(self.player);
        }
        assert(self.winner == after.winner);

        self.turns += 1;
        self.player = self.player.opponent();
        proof {
            assert(self@.fills =~= after.fills);
            assert(self@ == after);
        }
        Ok(row)
    }

    /// Starts the game anew: the state is that of a new game.
    pub fn reset(&mut self)
        ensures
            final(self).wf(),
            final(self)@ == GameState::initial(),
    {
        self.grid = [None; CELLS];
        self.coins = [0; COLUMNS];
        self.player = Player::One;
        self.winner = None;
        self.turns = 0;
        proof {
            lemma_discs_of_empty(self.grid@);
            assert(self@.fills =~= GameState::initial().fills);
            GameState::lemma_initial_wf();
        }
    }
}

} // verus!
