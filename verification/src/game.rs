//! The simulator: a game that takes commands one by one.

use vstd::prelude::*;
use crate::board::Board;
use crate::command::Command;
use crate::state::State;

verus! {

/// A running game on the server.
#[derive(Clone)]
pub struct Game {
    pub state: State,
}

impl View for Game {
    type V = Board;

    open spec fn view(&self) -> Board {
        self.state@
    }
}

impl Game {
    /// The grid of the game is a square of the recorded size.
    pub open spec fn wf(&self) -> bool {
        self.state.wf()
    }

    /// `cmd` can be simulated: if it is a move, the move addresses the grid.
    pub open spec fn admits(&self, cmd: Command) -> bool {
        cmd matches Command::Place(col, row) ==> self@.admits(col as int, row as int)
    }

    /// Whether `cmd` may be handed to `simulate`.
    pub fn can_simulate(&self, cmd: Command) -> (ok: bool)
        ensures
            ok == self.admits(cmd),
    {
        match cmd {
            Command::Place(col, row) => self.state.can_place(col as usize, row as usize),
            _ => true,
        }
    }

    /// Carries out one command. A move places the mover's mark by the rules
    /// of `State::place`; a restart puts a fresh grid in place and keeps the
    /// size, the winning length and the gravity; any other command leaves
    /// the game as it is.
    pub fn simulate(&mut self, cmd: Command)
        requires
            old(self).wf(),
            old(self).admits(cmd),
        ensures
            final(self)@ == old(self)@.simulate(cmd),
            final(self).wf(),
    {
        match cmd {
            Command::Place(col, row) => {
                self.state.place(col as usize, row as usize);
            },
            Command::Restart => {
                self.state = State::new(self.state.size, self.state.win, self.state.gravity);
            },
            _ => {},
        }
    }
}

} // verus!
