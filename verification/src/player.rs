//! The two sides of a game.

use vstd::prelude::*;

verus! {

/// One of the two players, named after the mark they draw.
#[derive(Copy, Clone, Debug, PartialEq, Eq, Structural)]
pub enum Player {
    Naughts,
    Crosses,
}

impl Player {
    /// The other player.
    pub open spec fn other(self) -> Player {
        match self {
            Player::Naughts => Player::Crosses,
            Player::Crosses => Player::Naughts,
        }
    }

    /// The player who moves after `self`.
    pub fn opponent(self) -> (next: Player)
        ensures
            next == self.other(),
    {
        match self {
            Player::Naughts => Player::Crosses,
            Player::Crosses => Player::Naughts,
        }
    }
}

} // verus!
