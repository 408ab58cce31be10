//! A two-player Connect Four match engine: challenges between accounts, turn
//! enforcement, move application, win and draw detection, and score keeping.

pub mod coin;
pub mod game;
pub mod grid;
pub mod nonce;
pub mod pallet;
pub mod score;

pub use coin::{Coin, Player, WinState};
pub use pallet::{Config, Error, Event, NonceDefault, Pallet, Store};
pub use score::ScoreCard;
pub use game::{BoardId, ConnectFourBoardStruct, Game, GameError};
