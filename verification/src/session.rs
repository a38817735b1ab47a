//! The state of an interactive session as a mathematical object: the game,
//! the column that the cursor selects, the disc that is still falling on the
//! screen, and what each key does to them.

use vstd::prelude::*;
use crate::board::{cell_at, COLUMNS, ROWS};
use crate::player::Player;
use crate::state::GameState;

verus! {

/// A disc shown on its way down to the cell where it came to rest.
#[derive(Clone, Copy, Debug, PartialEq, Eq, Structural)]
pub struct Animation {
    /// The row in which the disc is shown at the moment.
    pub current_row: usize,
    /// The row in which the disc came to rest.
    pub target_row: usize,
    /// The column of the disc.
    pub column: usize,
}

/// A key of the keyboard, as far as the session tells keys apart.
#[derive(Clone, Copy, Debug, PartialEq, Eq, Structural)]
pub enum Key {
    Esc,
    Left,
    Right,
    Enter,
    Char(char),
    Other,
}

/// What the line above the board says.
#[derive(Clone, Copy, Debug, PartialEq, Eq, Structural)]
pub enum Message {
    /// The game goes on, and it is this player's turn.
    Turn(Player),
    /// This player has won.
    Won(Player),
    /// The board is full and nobody has won.
    Draw,
}

/// The column that lies `distance` columns from `from`, to the left or to
/// the right, where the column after the last is the first and the column
/// before the first is the last.
pub open spec fn column_around(from: int, distance: int, leftwards: bool) -> int {
    if leftwards {
        (from - distance) % (COLUMNS as int)
    } else {
        (from + distance) % (COLUMNS as int)
    }
}

/// Whether the column `distance` columns from `from` is the nearest one on
/// that side that is not full.
pub open spec fn nearest_open(game: GameState, from: int, distance: int, leftwards: bool) -> bool {
    &&& 1 <= distance <= COLUMNS
    &&& !game.column_full(column_around(from, distance, leftwards))
    &&& forall|nearer: int|
        1 <= nearer < distance ==> game.column_full(
            #[trigger] column_around(from, nearer, leftwards),
        )
}

/// Everything that a session consists of at one moment.
pub struct Session {
    /// The game that is played.
    pub game: GameState,
    /// The column that the cursor selects.
    pub selected_column: int,
    /// The disc that is still falling on the screen, if one is.
    pub animation: Option<Animation>,
    /// Whether the session goes on.
    pub looping: bool,
}

impl Session {
    /// The state in which a session starts: a new game, the cursor on the
    /// first column, nothing falling.
    pub open spec fn initial() -> Session {
        Session { game: GameState::initial(), selected_column: 0, animation: None, looping: true }
    }

    /// Whether the parts fit the grid: the game is well formed, the cursor
    /// selects a column of the grid, and a falling disc is on the grid, at or
    /// above its target.
    pub open spec fn coherent(self) -> bool {
        &&& self.game.wf()
        &&& 0 <= self.selected_column < COLUMNS
        &&& self.animation matches Some(animation) ==> animation.column < COLUMNS
            && animation.current_row <= animation.target_row < ROWS
    }

    /// What holds of every state that a session can reach between two keys:
    /// the parts fit the grid, and the selected column has room as long as
    /// the game goes on.
    pub open spec fn wf(self) -> bool {
        &&& self.coherent()
        &&& !self.game.over() ==> !self.game.column_full(self.selected_column)
    }

    /// The message above the board.
    pub open spec fn message(self) -> Message {
        if !self.game.over() {
            Message::Turn(self.game.player)
        } else if let Some(winner) = self.game.winner {
            Message::Won(winner)
        } else {
            Message::Draw
        }
    }

    /// What the screen shows in the cell `(row, column)`: a falling disc is
    /// shown where it is at the moment and not yet where it will rest.
    pub open spec fn shown(self, row: int, column: int) -> Option<Player> {
        match self.animation {
            Some(animation) if animation.column == column && animation.current_row == row => {
                cell_at(self.game.discs, animation.target_row as int, column)
            },
            Some(animation) if animation.column == column && animation.target_row == row => None,
            _ => cell_at(self.game.discs, row, column),
        }
    }

    /// Whether a disc is shown above the cell where it came to rest.
    pub open spec fn falling(self) -> bool {
        self.animation matches Some(animation) && animation.current_row != animation.target_row
    }

    /// The session after it was told to end.
    pub open spec fn quit(self) -> Session {
        Session { looping: false, ..self }
    }

    /// The session after a restart: a new game and the cursor on the first
    /// column. A disc that is falling goes on falling.
    pub open spec fn restarted(self) -> Session {
        Session { game: GameState::initial(), selected_column: 0, ..self }
    }

    /// The session after one tick of the clock, where `elapsed` says whether
    /// the time of one step of the fall has passed: a disc that has arrived
    /// is taken away, and one that is due falls by one row.
    pub open spec fn ticked(self, elapsed: bool) -> Session {
        match self.animation {
            Some(animation) if animation.current_row == animation.target_row => Session {
                animation: None,
                ..self
            },
            Some(animation) if elapsed => Session {
                animation: Some(
                    Animation { current_row: (animation.current_row + 1) as usize, ..animation },
                ),
                ..self
            },
            _ => self,
        }
    }

    /// Whether `next` is the session after the cursor was moved: to the
    /// nearest column on that side that is not full, and not at all once the
    /// game is over.
    pub open spec fn moved(self, leftwards: bool, next: Session) -> bool {
        &&& next.game == self.game
        &&& next.animation == self.animation
        &&& next.looping == self.looping
        &&& if self.game.over() {
            next.selected_column == self.selected_column
        } else {
            exists|distance: int|
                nearest_open(self.game, self.selected_column, distance, leftwards)
                    && next.selected_column == #[trigger] column_around(
                    self.selected_column,
                    distance,
                    leftwards,
                )
        }
    }

    /// Whether a disc can be dropped: the game goes on and nothing is
    /// falling.
    pub open spec fn can_play(self) -> bool {
        !self.game.over() && self.animation is None
    }

    /// The session right after a disc was dropped into the selected column:
    /// the disc is shown falling from the top row, unless it rests there.
    pub open spec fn dropped(self) -> Session {
        let column = self.selected_column;
        let row = self.game.landing_row(column);
        Session {
            game: self.game.drop_disc(column),
            animation: if row != 0 {
                Some(
                    Animation { current_row: 0, target_row: row as usize, column: column as usize },
                )
            } else {
                None
            },
            ..self
        }
    }

    /// Whether `next` is the session after the play key was pressed. Where a
    /// disc can be dropped, it goes into the selected column, and the cursor
    /// then leaves a column that the disc has filled, to the right, if the
    /// game goes on.
    pub open spec fn played(self, next: Session) -> bool {
        if !self.can_play() {
            next == self
        } else if self.dropped().game.column_full(self.selected_column) {
            self.dropped().moved(false, next)
        } else {
            next == self.dropped()
        }
    }

    /// Whether `next` is the session after `key` was pressed.
    pub open spec fn pressed(self, key: Key, next: Session) -> bool {
        match key {
            Key::Esc => next == self.quit(),
            Key::Left => self.moved(true, next),
            Key::Right => self.moved(false, next),
            Key::Enter => self.played(next),
            Key::Char(c) => if c == ' ' {
                self.played(next)
            } else if c == 'r' {
                next == self.restarted()
            } else {
                next == self
            },
            Key::Other => next == self,
        }
    }

    /// The cursor has one place to go: two sessions that both follow from a
    /// move of the cursor to the same side are the same.
    pub proof fn lemma_moved_is_unique(self, leftwards: bool, first: Session, second: Session)
        requires
            self.moved(leftwards, first),
            self.moved(leftwards, second),
        ensures
            first == second,
    {
        if !self.game.over() {
            let from = self.selected_column;
            let a = choose|distance: int|
                nearest_open(self.game, from, distance, leftwards) && first.selected_column
                    == #[trigger] column_around(from, distance, leftwards);
            let b = choose|distance: int|
                nearest_open(self.game, from, distance, leftwards) && second.selected_column
                    == #[trigger] column_around(from, distance, leftwards);
            // Of two distances the shorter one leads to a column with room,
            // so the longer one is not the nearest.
            if a < b {
                assert(self.game.column_full(column_around(from, a, leftwards)));
            }
            if b < a {
                assert(self.game.column_full(column_around(from, b, leftwards)));
            }
        }
    }

    /// A key has one effect: two sessions that both follow from the same key
    /// are the same.
    pub proof fn lemma_pressed_is_unique(self, key: Key, first: Session, second: Session)
        requires
            self.pressed(key, first),
            self.pressed(key, second),
        ensures
            first == second,
    {
        let full = self.dropped().game.column_full(self.selected_column);
        match key {
            Key::Left => self.lemma_moved_is_unique(true, first, second),
            Key::Right => self.lemma_moved_is_unique(false, first, second),
            Key::Enter => {
                if self.can_play() && full {
                    self.dropped().lemma_moved_is_unique(false, first, second);
                }
            },
            Key::Char(c) => {
                if c == ' ' && self.can_play() && full {
                    self.dropped().lemma_moved_is_unique(false, first, second);
                }
            },
            _ => {},
        }
    }
}

} // verus!
