//! The small value types of the game: cell contents, players and outcomes.

use vstd::prelude::*;

verus! {

/// What occupies one cell of the grid.
#[derive(Clone, Copy, Debug, PartialEq, Eq, Structural)]
pub enum Coin {
    Player1,
    Player2,
    Empty,
}

impl Default for Coin {
    fn default() -> (coin: Coin)
        ensures
            coin == Coin::Empty,
    {
        Coin::Empty
    }
}

/// One of the two sides of a match. `One` is the challenger.
#[derive(Clone, Copy, Debug, PartialEq, Eq, Structural)]
pub enum Player {
    One,
    Two,
}

impl Default for Player {
    fn default() -> (player: Player)
        ensures
            player == Player::One,
    {
        Player::One
    }
}

/// How a match stands: won by a player, drawn, or still open.
#[derive(Clone, Copy, Debug, PartialEq, Eq, Structural)]
pub enum WinState {
    Player(Player),
    Draw,
    Ongoing,
}

impl Default for WinState {
    fn default() -> (state: WinState)
        ensures
            state == WinState::Ongoing,
    {
        WinState::Ongoing
    }
}

impl Coin {
    /// The side that plays this coin, if any.
    pub open spec fn owner(self) -> Option<Player> {
        match self {
            Coin::Player1 => Some(Player::One),
            Coin::Player2 => Some(Player::Two),
            Coin::Empty => None,
        }
    }
}

impl Player {
    /// The coin that this side drops.
    pub open spec fn coin(self) -> Coin {
        match self {
            Player::One => Coin::Player1,
            Player::Two => Coin::Player2,
        }
    }
}

} // verus!
