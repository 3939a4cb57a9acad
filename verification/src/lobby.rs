//! The lobby of the server: who plays, who watches, which settings the next
//! game gets, and the game once it runs.

use std::collections::HashMap;
use vstd::prelude::*;
use crate::board::Board;
use crate::command::Command;
use crate::game::Game;
use crate::player::Player;
use crate::state::State;

verus! {

/// The settings a game is started with. Each is chosen in the lobby, and the
/// game can start once all three are.
#[derive(Copy, Clone, Debug, PartialEq, Eq, Structural)]
pub struct GameSettings {
    pub grid_size: Option<u32>,
    pub win_condition: Option<u32>,
    pub gravity: Option<bool>,
}

impl GameSettings {
    /// All three settings are chosen.
    pub open spec fn complete(self) -> bool {
        self.grid_size is Some && self.win_condition is Some && self.gravity is Some
    }

    /// The board of a game started with these settings.
    pub open spec fn opening(self) -> Board {
        Board::fresh(
            self.grid_size->0 as nat,
            self.win_condition->0 as nat,
            self.gravity->0,
        )
    }

    /// The settings after a command of the lobby; any other command leaves
    /// them as they are.
    pub open spec fn configured(self, cmd: Command) -> GameSettings {
        match cmd {
            Command::SetWinCondition(win) => GameSettings { win_condition: Some(win), ..self },
            Command::SetGridSize(size) => GameSettings { grid_size: Some(size), ..self },
            Command::SetGravity(gravity) => GameSettings { gravity: Some(gravity), ..self },
            _ => self,
        }
    }

    /// Whether a game can be started: every setting is chosen.
    pub fn is_valid(&self) -> (valid: bool)
        ensures
            valid == self.complete(),
    {
        if let None = self.grid_size {
            return false;
        }
        if let None = self.win_condition {
            return false;
        }
        if let None = self.gravity {
            return false;
        }
        true
    }
}

impl Default for GameSettings {
    /// Nothing chosen yet.
    fn default() -> (settings: GameSettings)
        ensures
            settings == (GameSettings { grid_size: None, win_condition: None, gravity: None }),
    {
        GameSettings { grid_size: None, win_condition: None, gravity: None }
    }
}

/// A command together with the client that sent it.
#[derive(Copy, Clone, Debug, PartialEq, Eq, Structural)]
pub struct ClientMessage {
    pub id: u128,
    pub cmd: Command,
}

/// The lobby as contracts see it.
pub struct LobbyView {
    pub players: Map<u128, Player>,
    pub spectators: Seq<u128>,
    pub settings: GameSettings,
    pub game: Option<Board>,
}

impl LobbyView {
    /// The running game, if there is one, has a square grid.
    pub open spec fn wf(self) -> bool {
        self.game matches Some(board) ==> board.wf()
    }

    /// The lobby before anyone has connected.
    pub open spec fn empty() -> LobbyView {
        LobbyView {
            players: Map::empty(),
            spectators: Seq::empty(),
            settings: GameSettings { grid_size: None, win_condition: None, gravity: None },
            game: None,
        }
    }

    /// The lobby after the client `id` has connected. The first client to
    /// come plays Crosses and the second plays Naughts; whoever comes while
    /// two players are seated only watches. Every client is a spectator.
    pub open spec fn joined(self, id: u128) -> LobbyView {
        LobbyView {
            players: if self.players.len() < 1 {
                self.players.insert(id, Player::Crosses)
            } else if self.players.len() < 2 {
                self.players.insert(id, Player::Naughts)
            } else {
                self.players
            },
            spectators: self.spectators.push(id),
            ..self
        }
    }

    /// The message comes from the player whose turn it is in the running
    /// game, so its command goes to the game.
    pub open spec fn reaches_game(self, msg: ClientMessage) -> bool {
        &&& self.players.contains_key(msg.id)
        &&& self.game matches Some(board)
        &&& self.players[msg.id] == board.turn
    }

    /// If the message carries a move to the game, the move addresses the
    /// grid.
    pub open spec fn admits(self, msg: ClientMessage) -> bool {
        self.reaches_game(msg) ==> (msg.cmd matches Command::Place(col, row)
            ==> self.game->0.admits(col as int, row as int))
    }

    /// The lobby after a message. A client that is no player is ignored.
    /// While a game runs, the player to move has their command simulated and
    /// the other player is ignored. Before that, a player's command changes
    /// the settings, or starts the game if the settings are complete.
    pub open spec fn applied(self, msg: ClientMessage) -> LobbyView {
        if !self.players.contains_key(msg.id) {
            self
        } else {
            match self.game {
                Some(board) => if self.players[msg.id] == board.turn {
                    LobbyView { game: Some(board.simulate(msg.cmd)), ..self }
                } else {
                    self
                },
                None => match msg.cmd {
                    Command::StartGame => if self.settings.complete() {
                        LobbyView { game: Some(self.settings.opening()), ..self }
                    } else {
                        self
                    },
                    _ => LobbyView { settings: self.settings.configured(msg.cmd), ..self },
                },
            }
        }
    }

    /// The board that every spectator is sent after a message: the game
    /// after the command, whenever the command went to the game.
    pub open spec fn broadcast(self, msg: ClientMessage) -> Option<Board> {
        if self.reaches_game(msg) {
            Some(self.game->0.simulate(msg.cmd))
        } else {
            None
        }
    }
}

/// The state of the server between two messages.
pub struct Lobby {
    pub players: HashMap<u128, Player>,
    pub spectators: Vec<u128>,
    pub settings: GameSettings,
    pub game: Option<Game>,
}

impl View for Lobby {
    type V = LobbyView;

    open spec fn view(&self) -> LobbyView {
        LobbyView {
            players: self.players@,
            spectators: self.spectators@,
            settings: self.settings,
            game: match self.game {
                Some(game) => Some(game@),
                None => None,
            },
        }
    }
}

/// The number is a version 4 UUID of the RFC 4122 variant, read as one
/// big-endian integer.
pub open spec fn is_random_uuid(id: u128) -> bool {
    (id >> 76) & 0xf == 4 && (id >> 62) & 0x3 == 2
}

/// Draws the identifier of a new client with `uuid::Uuid::new_v4` and reads
/// it as a number with `Uuid::as_u128`. Trusted: the sixteen bytes come from
/// the operating system's random source, so nothing is claimed of them but
/// the version and variant bits that `new_v4` sets. The call panics if the
/// operating system cannot supply random bytes.
#[verifier::external_body]
fn random_id() -> (id: u128)
    ensures
        is_random_uuid(id),
{
    uuid::Uuid::new_v4().as_u128()
}

impl Lobby {
    /// The running game, if there is one, has a square grid.
    pub open spec fn wf(&self) -> bool {
        self@.wf()
    }

    /// A lobby that nobody has connected to.
    pub fn new() -> (lobby: Lobby)
        ensures
            lobby@ == LobbyView::empty(),
            lobby.wf(),
    {
        Lobby {
            players: HashMap::new(),
            spectators: Vec::new(),
            settings: GameSettings::default(),
            game: None,
        }
    }

    /// Seats the client `id`: as a player while fewer than two are seated,
    /// and as a spectator in any case.
    pub fn join(&mut self, id: u128)
        ensures
            final(self)@ == old(self)@.joined(id),
            final(self).wf() == old(self).wf(),
    {
        let player_count = self.players.len();
        if player_count < 1 {
            self.players.insert(id, Player::Crosses);
        } else if player_count < 2 {
            self.players.insert(id, Player::Naughts);
        }
        self.spectators.push(id);
    }

    /// Takes in a new connection: draws a random identifier for the client,
    /// seats the client under it and returns it.
    pub fn connection_made(&mut self) -> (id: u128)
        ensures
            is_random_uuid(id),
            final(self)@ == old(self)@.joined(id),
            final(self).wf() == old(self).wf(),
    {
        let id = random_id();
        self.join(id);
        id
    }

    /// Whether `msg` may be handed to `apply`.
    pub fn can_apply(&self, msg: ClientMessage) -> (ok: bool)
        ensures
            ok == self@.admits(msg),
    {
        match self.players.get(&msg.id) {
            None => true,
            Some(player) => match &self.game {
                None => true,
                Some(game) => *player != game.state.turn || game.can_simulate(msg.cmd),
            },
        }
    }

    /// Handles one message of a client and returns the state to send to
    /// every spectator, if the message calls for one. What is sent is the
    /// game as the lobby holds it after the message.
    pub fn apply(&mut self, msg: ClientMessage) -> (out: Option<State>)
        requires
            old(self).wf(),
            old(self)@.admits(msg),
        ensures
            final(self)@ == old(self)@.applied(msg),
            final(self).wf(),
            match out {
                Some(state) => old(self)@.broadcast(msg) == Some(state@) && final(self)@.game
                    == Some(state@),
                None => old(self)@.broadcast(msg) is None,
            },
    {
        let ClientMessage { id, cmd } = msg;
        let player = match self.players.get(&id) {
            Some(player) => *player,
            None => {
                return None;
            },
        };
        if let Some(mut game) = self.game.take() {
            let mut out: Option<State> = None;
            if player == game.state.turn {
                game.simulate(cmd);
                out = Some(game.state.snapshot());
            }
            self.game = Some(game);
            out
        } else {
            match cmd {
                Command::SetWinCondition(win_condition) => {
                    self.settings.win_condition = Some(win_condition);
                },
                Command::SetGridSize(grid_size) => {
                    self.settings.grid_size = Some(grid_size);
                },
                Command::SetGravity(gravity) => {
                    self.settings.gravity = Some(gravity);
                },
                Command::StartGame => {
                    if self.settings.is_valid() {
                        self.game = Some(
                            Game {
                                state: State::new(
                                    self.settings.grid_size.unwrap() as usize,
                                    self.settings.win_condition.unwrap() as usize,
                                    self.settings.gravity.unwrap(),
                                ),
                            },
                        );
                    }
                },
                _ => {},
            }
            None
        }
    }
}

/// The handshake does what it is for: when a player sends the four opening
/// commands to a lobby in which no game runs, the lobby ends up with a fresh
/// game of the size, winning length and gravity that were asked for, whatever
/// the settings were before.
pub proof fn lemma_handshake_starts_game(
    lobby: LobbyView,
    id: u128,
    size: u32,
    win: u32,
    gravity: bool,
)
    requires
        lobby.players.contains_key(id),
        lobby.game is None,
    ensures
        ({
            let cmds = Command::opening_moves(size, win, gravity);
            let after = lobby.applied(ClientMessage { id, cmd: cmds[0] }).applied(
                ClientMessage { id, cmd: cmds[1] },
            ).applied(ClientMessage { id, cmd: cmds[2] }).applied(
                ClientMessage { id, cmd: cmds[3] },
            );
            &&& cmds.len() == 4
            &&& after.game == Some(Board::fresh(size as nat, win as nat, gravity))
            &&& after.players == lobby.players
            &&& after.spectators == lobby.spectators
        }),
{
}

/// There are two seats: a lobby with at most two players has at most two
/// after any client joins, and nobody who is seated loses the seat to a
/// client with another identifier.
pub proof fn lemma_two_seats(lobby: LobbyView, id: u128)
    requires
        lobby.players.dom().finite(),
        lobby.players.len() <= 2,
    ensures
        lobby.joined(id).players.dom().finite(),
        lobby.joined(id).players.len() <= 2,
        forall|seated: u128|
            lobby.players.contains_key(seated) && seated != id ==> lobby.joined(
                id,
            ).players.contains_key(seated) && lobby.joined(id).players[seated]
                == lobby.players[seated],
{
}

} // verus!
