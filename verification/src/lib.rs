//! A networked tic-tac-toe, generalised to N-in-a-row on a square grid with
//! optional gravity: the rules of the game and of the lobby that precedes it.

pub mod board;
pub mod command;
pub mod game;
pub mod lobby;
pub mod player;
pub mod state;

pub use board::Board;
pub use command::Command;
pub use game::Game;
pub use lobby::ClientMessage;
pub use lobby::GameSettings;
pub use lobby::Lobby;
pub use lobby::LobbyView;
pub use player::Player;
pub use state::State;
