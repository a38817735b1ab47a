//! The board as a mathematical object.
//!
//! A board is a finite map from positions to the player whose disc lies
//! there. A position is a pair `(row, column)`; row 0 is the top row and row
//! `ROWS - 1` the bottom row, where discs settle first. Lines of four are
//! stated directly over that map, once for the line through a given cell and
//! once for the whole board.

use vstd::prelude::*;
use crate::player::Player;

verus! {

/// Number of rows of the grid: the capacity of a column.
pub const ROWS: usize = 6;

/// Number of columns of the grid.
pub const COLUMNS: usize = 7;

/// Number of cells of the grid.
pub const CELLS: usize = ROWS * COLUMNS;

/// The discs on a board, by position `(row, column)`.
pub type Discs = Map<(int, int), Player>;

/// The four axes along which a line of four can lie, each with the step that
/// leads from one cell of a line to the next.
pub enum Direction {
    /// Along a row, to the right.
    Row,
    /// Along a column, downwards.
    Column,
    /// Down and to the right.
    Diagonal,
    /// Down and to the left.
    AlternateDiagonal,
}

impl Direction {
    /// The cell that lies `steps` steps after `(row, column)` along this
    /// direction, and before it where `steps` is negative.
    pub open spec fn step(self, row: int, column: int, steps: int) -> (int, int) {
        match self {
            Direction::Row => (row, column + steps),
            Direction::Column => (row + steps, column),
            Direction::Diagonal => (row + steps, column + steps),
            Direction::AlternateDiagonal => (row + steps, column - steps),
        }
    }
}

/// Whether `(row, column)` is a cell of the grid.
pub open spec fn on_board(row: int, column: int) -> bool {
    0 <= row < ROWS && 0 <= column < COLUMNS
}

/// What a query of the cell `(row, column)` sees: the player whose disc lies
/// there, if any.
pub open spec fn cell_at(discs: Discs, row: int, column: int) -> Option<Player> {
    if discs.dom().contains((row, column)) {
        Some(discs[(row, column)])
    } else {
        None
    }
}

/// Whether a disc of `player` lies at `position`.
pub open spec fn holds(discs: Discs, player: Player, position: (int, int)) -> bool {
    discs.dom().contains(position) && discs[position] == player
}

/// Whether the four cells that start at `(row, column)` and follow
/// `direction` all hold a disc of `player`.
pub open spec fn run_from(
    discs: Discs,
    player: Player,
    row: int,
    column: int,
    direction: Direction,
) -> bool {
    &&& holds(discs, player, direction.step(row, column, 0))
    &&& holds(discs, player, direction.step(row, column, 1))
    &&& holds(discs, player, direction.step(row, column, 2))
    &&& holds(discs, player, direction.step(row, column, 3))
}

/// Whether the line of four along `direction` that starts `before` steps
/// before `(row, column)` consists of discs of `player`.
pub open spec fn run_around(
    discs: Discs,
    player: Player,
    row: int,
    column: int,
    direction: Direction,
    before: int,
) -> bool {
    let start = direction.step(row, column, -before);
    run_from(discs, player, start.0, start.1, direction)
}

/// Whether some line of four discs of `player` along `direction` has
/// `(row, column)` as one of its cells: the line starts at most three steps
/// before that cell.
pub open spec fn run_through(
    discs: Discs,
    player: Player,
    row: int,
    column: int,
    direction: Direction,
) -> bool {
    ||| run_around(discs, player, row, column, direction, 0)
    ||| run_around(discs, player, row, column, direction, 1)
    ||| run_around(discs, player, row, column, direction, 2)
    ||| run_around(discs, player, row, column, direction, 3)
}

/// Whether the four cells along `direction` of which the last lies `offset`
/// steps after `(row, column)` are occupied by one and the same player.
/// For an `offset` from 0 to 3 the cell `(row, column)` is one of the four.
pub open spec fn window(
    discs: Discs,
    row: int,
    column: int,
    direction: Direction,
    offset: int,
) -> bool {
    let first = direction.step(row, column, offset);
    let second = direction.step(row, column, offset - 1);
    let third = direction.step(row, column, offset - 2);
    let fourth = direction.step(row, column, offset - 3);
    let found = cell_at(discs, first.0, first.1);
    &&& found is Some
    &&& found == cell_at(discs, second.0, second.1)
    &&& found == cell_at(discs, third.0, third.1)
    &&& found == cell_at(discs, fourth.0, fourth.1)
}

/// Whether the disc at `(row, column)` is part of a line of four discs of its
/// owner along `direction`. False where the cell is empty.
pub open spec fn line_through(discs: Discs, row: int, column: int, direction: Direction) -> bool {
    discs.dom().contains((row, column)) && run_through(
        discs,
        discs[(row, column)],
        row,
        column,
        direction,
    )
}

/// Whether the disc at `(row, column)` is part of a line of four discs of its
/// owner, along any of the four directions.
pub open spec fn wins_at(discs: Discs, row: int, column: int) -> bool {
    ||| line_through(discs, row, column, Direction::Row)
    ||| line_through(discs, row, column, Direction::Column)
    ||| line_through(discs, row, column, Direction::Diagonal)
    ||| line_through(discs, row, column, Direction::AlternateDiagonal)
}

/// Whether `player` has a line of four anywhere on the board: the scan of
/// every start cell and every direction.
pub open spec fn has_run(discs: Discs, player: Player) -> bool {
    exists|row: int, column: int, direction: Direction|
        run_from(discs, player, row, column, direction)
}

/// Whether either player has a line of four anywhere on the board.
pub open spec fn has_four(discs: Discs) -> bool {
    has_run(discs, Player::One) || has_run(discs, Player::Two)
}

/// Whether every disc lies on a cell of the grid.
pub open spec fn confined(discs: Discs) -> bool {
    forall|row: int, column: int| #[trigger]
        discs.dom().contains((row, column)) ==> on_board(row, column)
}

/// A window that is filled lies on the grid from its first cell to its last.
pub proof fn lemma_window_on_board(
    discs: Discs,
    row: int,
    column: int,
    direction: Direction,
    offset: int,
)
    requires
        confined(discs),
        window(discs, row, column, direction, offset),
    ensures
        on_board(direction.step(row, column, offset).0, direction.step(row, column, offset).1),
        on_board(
            direction.step(row, column, offset - 3).0,
            direction.step(row, column, offset - 3).1,
        ),
{
    let first = direction.step(row, column, offset);
    let fourth = direction.step(row, column, offset - 3);
    assert(discs.dom().contains((first.0, first.1)));
    assert(discs.dom().contains((fourth.0, fourth.1)));
}

/// A window that contains the cell `(row, column)` is filled by one player
/// exactly if that cell is occupied and its owner has the line of four that
/// starts where the window starts.
pub proof fn lemma_window_is_run(
    discs: Discs,
    row: int,
    column: int,
    direction: Direction,
    offset: int,
)
    requires
        0 <= offset <= 3,
    ensures
        window(discs, row, column, direction, offset) <==> discs.dom().contains((row, column))
            && run_around(discs, discs[(row, column)], row, column, direction, 3 - offset),
{
    let start = direction.step(row, column, offset - 3);
    // Steps add up: the window's cells are the line's cells, last to first.
    assert(direction.step(start.0, start.1, 0) == direction.step(row, column, offset - 3));
    assert(direction.step(start.0, start.1, 1) == direction.step(row, column, offset - 2));
    assert(direction.step(start.0, start.1, 2) == direction.step(row, column, offset - 1));
    assert(direction.step(start.0, start.1, 3) == direction.step(row, column, offset));
    // And the cell itself is one of them.
    assert(direction.step(row, column, 0) == (row, column));
}

/// The disc at `(row, column)` lies on a line of four along `direction`
/// exactly if one of the four windows that contain the cell is filled by one
/// player.
pub proof fn lemma_line_through_windows(discs: Discs, row: int, column: int, direction: Direction)
    ensures
        line_through(discs, row, column, direction) <==> {
            ||| window(discs, row, column, direction, 0)
            ||| window(discs, row, column, direction, 1)
            ||| window(discs, row, column, direction, 2)
            ||| window(discs, row, column, direction, 3)
        },
{
    lemma_window_is_run(discs, row, column, direction, 0);
    lemma_window_is_run(discs, row, column, direction, 1);
    lemma_window_is_run(discs, row, column, direction, 2);
    lemma_window_is_run(discs, row, column, direction, 3);
}

/// A line through the cell `(row, column)` is a line on the board, and it
/// belongs to the owner of that cell.
pub proof fn lemma_win_is_run(discs: Discs, row: int, column: int)
    requires
        wins_at(discs, row, column),
    ensures
        discs.dom().contains((row, column)),
        has_run(discs, discs[(row, column)]),
{
    let player = discs[(row, column)];
    // Each disjunct of `run_through` names the start of a line.
    assert forall|direction: Direction, before: int|
        run_around(discs, player, row, column, direction, before) implies has_run(
        discs,
        player,
    ) by {
        let start = direction.step(row, column, -before);
        assert(run_from(discs, player, start.0, start.1, direction));
    }
}

/// A disc dropped on a free cell leaves every line that was there in place.
pub proof fn lemma_run_persists(
    discs: Discs,
    row: int,
    column: int,
    mover: Player,
    player: Player,
)
    requires
        !discs.dom().contains((row, column)),
        has_run(discs, player),
    ensures
        has_run(discs.insert((row, column), mover), player),
{
    let (r, c, d): (int, int, Direction) = choose|r: int, c: int, d: Direction|
        run_from(discs, player, r, c, d);
    assert(run_from(discs.insert((row, column), mover), player, r, c, d));
}

/// A line that appears when a disc is dropped on a free cell passes through
/// that cell and belongs to the player who dropped it: checking the lines
/// through the new disc finds exactly what a scan of the whole board finds.
pub proof fn lemma_new_run_passes_through(
    discs: Discs,
    row: int,
    column: int,
    mover: Player,
    player: Player,
)
    requires
        !discs.dom().contains((row, column)),
        !has_run(discs, player),
        has_run(discs.insert((row, column), mover), player),
    ensures
        player == mover,
        wins_at(discs.insert((row, column), mover), row, column),
{
    let after = discs.insert((row, column), mover);
    let (r, c, d): (int, int, Direction) = choose|r: int, c: int, d: Direction|
        run_from(after, player, r, c, d);
    let here = (row, column);
    // Were the new cell none of the four, the line would have been there before.
    if d.step(r, c, 0) != here && d.step(r, c, 1) != here && d.step(r, c, 2) != here && d.step(
        r,
        c,
        3,
    ) != here {
        assert(run_from(discs, player, r, c, d));
    }
    // So the line starts at most three steps before the new cell.
    if d.step(r, c, 0) == here {
        assert(d.step(row, column, 0) == (r, c));
        assert(run_around(after, mover, row, column, d, 0));
    } else if d.step(r, c, 1) == here {
        assert(d.step(row, column, -1) == (r, c));
        assert(run_around(after, mover, row, column, d, 1));
    } else if d.step(r, c, 2) == here {
        assert(d.step(row, column, -2) == (r, c));
        assert(run_around(after, mover, row, column, d, 2));
    } else {
        assert(d.step(row, column, -3) == (r, c));
        assert(run_around(after, mover, row, column, d, 3));
    }
    assert(line_through(after, row, column, d));
}

} // verus!
