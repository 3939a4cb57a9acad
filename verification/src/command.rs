//! What a client may ask of the server.

use vstd::prelude::*;

verus! {

/// A request sent by a client: a move in a running game, or a setting of the
/// lobby that precedes one.
#[derive(Copy, Clone, Debug, PartialEq, Eq, Structural)]
pub enum Command {
    /// Put the mover's mark in the cell at this column and row.
    Place(u32, u32),
    /// Start the game over with the same settings.
    Restart,
    /// Leave the lobby and begin the game.
    StartGame,
    /// Set how many aligned marks win the game.
    SetWinCondition(u32),
    /// Set the number of columns and of rows.
    SetGridSize(u32),
    /// Set whether a placed mark falls down its column.
    SetGravity(bool),
}

impl Command {
    /// What a client sends first: the three settings of the game it wants,
    /// then the request to start it.
    pub open spec fn opening_moves(size: u32, win: u32, gravity: bool) -> Seq<Command> {
        seq![
            Command::SetGridSize(size),
            Command::SetWinCondition(win),
            Command::SetGravity(gravity),
            Command::StartGame,
        ]
    }

    /// The commands with which a client asks the server for a game of `size`
    /// columns and rows that `win` aligned marks win, in the order in which
    /// they are sent.
    pub fn handshake(size: u32, win: u32, gravity: bool) -> (cmds: Vec<Command>)
        ensures
            cmds@ == Command::opening_moves(size, win, gravity),
    {
        let mut cmds: Vec<Command> = Vec::new();
        cmds.push(Command::SetGridSize(size));
        cmds.push(Command::SetWinCondition(win));
        cmds.push(Command::SetGravity(gravity));
        cmds.push(Command::StartGame);
        assert(cmds@ =~= Command::opening_moves(size, win, gravity));
        cmds
    }
}

} // verus!
