//! The two players.

use vstd::prelude::*;

verus! {

/// One of the two players. `One` moves first.
#[derive(Clone, Copy, Debug, PartialEq, Eq, Structural)]
pub enum Player {
    One,
    Two,
}

impl Player {
    /// The other player.
    pub open spec fn other(self) -> Player {
        match self {
            Player::One => Player::Two,
            Player::Two => Player::One,
        }
    }

    /// Returns the opponent of this player.
    pub fn opponent(&self) -> (opponent: Self)
        ensures
            opponent == self.other(),
    {
        match self {
            Player::One => Player::Two,
            Player::Two => Player::One,
        }
    }

    /// The name under which the player is announced.
    pub open spec fn name(self) -> Seq<char> {
        match self {
            Player::One => "Player 1"@,
            Player::Two => "Player 2"@,
        }
    }

    /// Returns the name under which the player is announced.
    pub fn to_str(&self) -> (name: &str)
        ensures
            name@ == self.name(),
    {
        match self {
            Player::One => "Player 1",
            Player::Two => "Player 2",
        }
    }

    /// The opponent's opponent is the player itself, and never the player's
    /// own opponent.
    pub proof fn lemma_other_involution(self)
        ensures
            self.other().other() == self,
            self.other() != self,
    {
    }
}

} // verus!
