//! An interactive session around the engine: the cursor that selects a
//! column, the disc that is shown falling, and the keys that drive them.
//!
//! The session decides; it neither reads the keyboard nor the clock, nor
//! draws anything. Its caller hands it each key and each tick, and asks it
//! what to show.

use vstd::prelude::*;
use crate::board::{on_board, COLUMNS};
use crate::connect_four::ConnectFour;
use crate::error::Error;
use crate::player::Player;
use crate::session::{column_around, nearest_open, Animation, Key, Message, Session};
use crate::state::GameState;

verus! {

/// A session: a game and what the player at the keyboard has selected.
#[derive(Clone, Copy, Debug, PartialEq, Eq)]
pub struct Game {
    game: ConnectFour,
    selected_column: usize,
    animation: Option<Animation>,
    looping: bool,
}

impl View for Game {
    type V = Session;

    /// The session as a mathematical object.
    closed spec fn view(&self) -> Session {
        Session {
            game: self.game@,
            selected_column: self.selected_column as int,
            animation: self.animation,
            looping: self.looping,
        }
    }
}

impl Game {
    /// Whether this value is a state that a session can reach.
    pub open spec fn wf(&self) -> bool {
        self@.wf()
    }

    /// Starts a session with a new game.
    pub fn new() -> (session: Self)
        ensures
            session.wf(),
            session@ == Session::initial(),
    {
        Self { game: ConnectFour::new(), selected_column: 0, animation: None, looping: true }
    }

    /// Returns the game that is played.
    pub fn game(&self) -> (game: &ConnectFour)
        ensures
            game@ == self@.game,
    {
        &self.game
    }

    /// Returns the column that the cursor selects.
    pub fn selected_column(&self) -> (column: usize)
        ensures
            column == self@.selected_column,
    {
        self.selected_column
    }

    /// Returns the disc that is still falling, if one is.
    pub fn animation(&self) -> (animation: Option<Animation>)
        ensures
            animation == self@.animation,
    {
        self.animation
    }

    /// Returns `true` until the session was told to end.
    pub fn looping(&self) -> (looping: bool)
        ensures
            looping == self@.looping,
    {
        self.looping
    }

    /// Returns what the line above the board says: whose turn it is, who has
    /// won, or that the game is drawn.
    pub fn message(&self) -> (message: Message)
        ensures
            message == self@.message(),
    {
        if !self.game.over() {
            return Message::Turn(self.game.player());
        }
        if let Some(winner) = self.game.winner() {
            return Message::Won(winner);
        }
        Message::Draw
    }

    /// Returns how far the arrow that marks the selected column stands from
    /// the left edge, where a cell and the separator before it take two
    /// places.
    pub fn arrow_padding(&self) -> (padding: usize)
        requires
            self.wf(),
        ensures
            padding == 2 * self@.selected_column + 1,
    {
        2 * self.selected_column + 1
    }

    /// Returns what the screen shows in the given cell, and `OutOfBounds` for
    /// a position outside the grid.
    pub fn cell_shown(&self, row: usize, column: usize) -> (cell: Result<Option<Player>, Error>)
        requires
            self.wf(),
        ensures
            on_board(row as int, column as int) ==> cell == Ok::<Option<Player>, Error>(
                self@.shown(row as int, column as int),
            ),
            !on_board(row as int, column as int) ==> cell == Err::<Option<Player>, Error>(
                Error::OutOfBounds,
            ),
    {
        if row >= self.game.rows() || column >= self.game.columns() {
            return Err(Error::OutOfBounds);
        }
        if let Some(animation) = self.animation {
            if animation.current_row == row && animation.column == column {
                return self.game.get(animation.target_row, column);
            }
            if animation.target_row == row && animation.column == column {
                return Ok(None);
            }
        }
        self.game.get(row, column)
    }

    /// Lets one tick of the clock pass, where `elapsed` says whether the time
    /// of one step of the fall has passed since the clock was last started.
    /// Returns `true` if the disc fell by one row: the clock starts anew.
    pub fn tick_animation(&mut self, elapsed: bool) -> (fell: bool)
        requires
            old(self).wf(),
        ensures
            final(self).wf(),
            final(self)@ == old(self)@.ticked(elapsed),
            fell == (elapsed && old(self)@.falling()),
    {
        if let Some(animation) = self.animation {
            if animation.current_row == animation.target_row {
                self.animation = None;
                return false;
            }
            if elapsed {
                self.animation = Some(
                    Animation {
                        current_row: animation.current_row + 1,
                        target_row: animation.target_row,
                        column: animation.column,
                    },
                );
                return true;
            }
        }
        false
    }

    /// Does what the key stands for: `Esc` ends the session, the arrows move
    /// the cursor, `Enter` and the space bar drop a disc, `r` restarts the
    /// game, and any other key does nothing. Returns `true` if a disc
    /// started to fall: the clock starts anew.
    pub fn handle_key_event(&mut self, key: Key) -> (started: bool)
        requires
            old(self).wf(),
        ensures
            final(self).wf(),
            old(self)@.pressed(key, final(self)@),
            started == (old(self)@.animation is None && final(self)@.animation is Some),
    {
        match key {
            Key::Esc => {
                self.quit();
                false
            },
            Key::Left => {
                self.move_left();
                false
            },
            Key::Right => {
                self.move_right();
                false
            },
            Key::Enter => self.handle_play(),
            Key::Char(c) => {
                if c == ' ' {
                    self.handle_play()
                } else if c == 'r' {
                    self.handle_restart();
                    false
                } else {
                    false
                }
            },
            Key::Other => false,
        }
    }

    /// Ends the session.
    pub fn quit(&mut self)
        ensures
            final(self)@ == old(self)@.quit(),
    {
        self.looping = false;
    }

    /// Moves the cursor to the nearest column on the left that is not full,
    /// going on from the last column after the first. Does nothing once the
    /// game is over.
    pub fn move_left(&mut self)
        requires
            old(self)@.coherent(),
        ensures
            final(self).wf(),
            old(self)@.moved(true, final(self)@),
    {
        if self.game.over() {
            return;
        }
        let ghost from = self.selected_column as int;
        let ghost mut distance: int = 0;
        loop
            invariant_except_break
                0 <= distance < COLUMNS,
                forall|nearer: int|
                    1 <= nearer <= distance ==> self.game@.column_full(
                        #[trigger] column_around(from, nearer, true),
                    ),
            invariant
                self.game == old(self).game,
                self.animation == old(self).animation,
                self.looping == old(self).looping,
                old(self)@.coherent(),
                !self.game@.over(),
                from == old(self).selected_column,
                self.selected_column == column_around(from, distance, true),
            ensures
                nearest_open(self.game@, from, distance, true),
            decreases COLUMNS - distance,
        {
            if self.selected_column == 0 {
                self.selected_column = self.game.last_column();
            } else {
                self.selected_column -= 1;
            }
            proof {
                distance = distance + 1;
            }

            if !matches!(self.game.is_column_full(self.selected_column), Ok(true)) {
                break;
            }
            proof {
                Self::lemma_not_all_full(self.game@, from, distance, true);
            }
        }
    }

    /// Moves the cursor to the nearest column on the right that is not full,
    /// going on from the first column after the last. Does nothing once the
    /// game is over.
    pub fn move_right(&mut self)
        requires
            old(self)@.coherent(),
        ensures
            final(self).wf(),
            old(self)@.moved(false, final(self)@),
    {
        if self.game.over() {
            return;
        }
        let ghost from = self.selected_column as int;
        let ghost mut distance: int = 0;
        loop
            invariant_except_break
                0 <= distance < COLUMNS,
                forall|nearer: int|
                    1 <= nearer <= distance ==> self.game@.column_full(
                        #[trigger] column_around(from, nearer, false),
                    ),
            invariant
                self.game == old(self).game,
                self.animation == old(self).animation,
                self.looping == old(self).looping,
                old(self)@.coherent(),
                !self.game@.over(),
                from == old(self).selected_column,
                self.selected_column == column_around(from, distance, false),
            ensures
                nearest_open(self.game@, from, distance, false),
            decreases COLUMNS - distance,
        {
            if self.selected_column == self.game.last_column() {
                self.selected_column = 0;
            } else {
                self.selected_column += 1;
            }
            proof {
                distance = distance + 1;
            }

            if !matches!(self.game.is_column_full(self.selected_column), Ok(true)) {
                break;
            }
            proof {
                Self::lemma_not_all_full(self.game@, from, distance, false);
            }
        }
    }

    /// Drops a disc of the current player into the selected column, unless
    /// the game is over or a disc is still falling. The disc is shown falling
    /// from the top row unless it rests there, and the cursor leaves a column
    /// that the disc has filled. Returns `true` if a disc started to fall.
    pub fn handle_play(&mut self) -> (started: bool)
        requires
            old(self).wf(),
        ensures
            final(self).wf(),
            old(self)@.played(final(self)@),
            started == (old(self)@.animation is None && final(self)@.animation is Some),
    {
        if self.game.over() || self.animation.is_some() {
            return false;
        }
        let column = self.selected_column;
        let mut started = false;
        if let Ok(row) = self.game.play(column) {
            if row != 0 {
                self.animation = Some(Animation { current_row: 0, target_row: row, column });
                started = true;
            }
            if matches!(self.game.is_column_full(column), Ok(true)) {
                self.move_right();
            }
        }
        started
    }

    /// Starts a new game and puts the cursor on the first column.
    pub fn handle_restart(&mut self)
        requires
            old(self).wf(),
        ensures
            final(self).wf(),
            final(self)@ == old(self)@.restarted(),
    {
        self.game.reset();
        self.selected_column = 0;
    }

    /// While the game goes on, the columns within `distance` of `from` are
    /// not all of the grid's columns if each of them is full.
    proof fn lemma_not_all_full(game: GameState, from: int, distance: int, leftwards: bool)
        requires
            game.wf(),
            !game.over(),
            0 <= from < COLUMNS,
            1 <= distance <= COLUMNS,
            forall|nearer: int|
                1 <= nearer <= distance ==> game.column_full(
                    #[trigger] column_around(from, nearer, leftwards),
                ),
        ensures
            distance < COLUMNS,
    {
        if distance == COLUMNS {
            game.lemma_turns_bounded();
            assert forall|column: int| 0 <= column < COLUMNS implies game.column_full(column) by {
                let nearer = if leftwards {
                    if from - column <= 0 {
                        from - column + COLUMNS
                    } else {
                        from - column
                    }
                } else {
                    if column - from <= 0 {
                        column - from + COLUMNS
                    } else {
                        column - from
                    }
                };
                assert(column_around(from, nearer, leftwards) == column);
            }
        }
    }
}

} // verus!
