//! One match between two accounts: its lifecycle, its turns and its outcome.

use vstd::prelude::*;
use crate::coin::{Coin, Player, WinState};
use crate::grid::{
    after_drop, any_empty, blank, cells, detect_win, drop_coin, drop_outcome, empty_grid, four_at,
    has_empty, landing_row, lemma_blank, lemma_drop_keeps_gravity, lemma_four_is_found,
    lemma_landing_row, lemma_only_the_new_coin_wins, lemma_winner, lemma_with_coin_keeps_shape,
    settled, well_shaped, winner_of, Direction,
};

verus! {

/// Why a move, or the creation of a grid, was refused.
#[derive(Clone, Copy, Debug, PartialEq, Eq, Structural)]
pub enum GameError {
    BoardExistsError,
    NotYourMove,
    NoPlayableMove,
    InvalidColumnForMove,
    ColumnFull,
    BoardNotReady,
    GameEnded,
}

impl Default for GameError {
    fn default() -> (error: GameError)
        ensures
            error == GameError::BoardExistsError,
    {
        GameError::BoardExistsError
    }
}

/// The 256-bit identifier under which a match is stored, as two halves.
#[derive(Clone, Copy, Debug, PartialEq, Eq, Hash, Structural)]
pub struct BoardId {
    pub high: u128,
    pub low: u128,
}

impl Default for BoardId {
    fn default() -> (id: BoardId)
        ensures
            id == (BoardId { high: 0, low: 0 }),
    {
        BoardId { high: 0, low: 0 }
    }
}

/// A match as the contracts see it.
pub struct Game {
    /// The cells of the grid, while the match owns one.
    pub grid: Option<Seq<Seq<Coin>>>,
    /// The challenger, who moves first.
    pub player_1: u64,
    /// The challenged account.
    pub player_2: u64,
    /// Whether the challenge has been accepted.
    pub accepted: bool,
    /// The identifier of the match.
    pub id: BoardId,
    /// Whether moves can still be made.
    pub active: bool,
    /// Who made the last move, if any was made.
    pub last_mover: Option<u64>,
    /// How the match stands.
    pub outcome: WinState,
}

impl Game {
    /// The grid, if there is one, has six rows of seven cells.
    pub open spec fn shaped(self) -> bool {
        self.grid is Some ==> well_shaped(self.grid->0)
    }

    /// A match in one of the states that the lifecycle reaches: pending
    /// (no grid, not accepted), in progress (accepted, active, with a grid
    /// that no one has won, that has room, and in which the coins of every
    /// column lie on each other), or ended (accepted, no grid, outcome fixed).
    pub open spec fn wf(self) -> bool {
        &&& self.player_1 != self.player_2
        &&& self.shaped()
        &&& self.active <==> self.grid is Some
        &&& self.active ==> self.accepted && self.outcome == WinState::Ongoing
        &&& self.active ==> winner_of(self.grid->0) is None && has_empty(self.grid->0)
        &&& self.active ==> settled(self.grid->0)
        &&& self.outcome != WinState::Ongoing ==> self.accepted
        &&& self.accepted && self.outcome == WinState::Ongoing ==> self.active
        &&& !self.accepted ==> self.last_mover is None
        &&& self.last_mover is Some ==> self.last_mover->0 == self.player_1 || self.last_mover->0
            == self.player_2
    }

    /// The match as a new challenge leaves it.
    pub open spec fn pending(id: BoardId, player_1: u64, player_2: u64) -> Game {
        Game {
            grid: None,
            player_1,
            player_2,
            accepted: false,
            id,
            active: false,
            last_mover: None,
            outcome: WinState::Ongoing,
        }
    }

    /// The match with its grid given up and its outcome fixed.
    pub open spec fn ended(self, outcome: WinState) -> Game {
        Game { grid: None, active: false, outcome, ..self }
    }

    /// The match after its grid was inspected. A match that was decided
    /// before stays as it is. Otherwise four in a row end it in favour of the
    /// owner of those coins, a grid without an empty cell ends it in a draw,
    /// and any other grid leaves it open.
    pub open spec fn settle(self) -> Game {
        if self.outcome != WinState::Ongoing || self.grid is None {
            self
        } else {
            match winner_of(self.grid->0) {
                Some(Coin::Player1) => self.ended(WinState::Player(Player::One)),
                Some(Coin::Player2) => self.ended(WinState::Player(Player::Two)),
                _ => if has_empty(self.grid->0) {
                    self
                } else {
                    self.ended(WinState::Draw)
                },
            }
        }
    }

    /// Whose turn it is: the challenger's before any move, afterwards that of
    /// the participant who did not move last.
    pub open spec fn legal_mover(self) -> u64 {
        match self.last_mover {
            None => self.player_1,
            Some(last) => if last == self.player_1 {
                self.player_2
            } else {
                self.player_1
            },
        }
    }

    /// The coin that `player` drops.
    pub open spec fn coin_of(self, player: u64) -> Coin {
        if player == self.player_1 {
            Coin::Player1
        } else {
            Coin::Player2
        }
    }

    /// Why a move of `player` into `column` is refused, if it is.
    pub open spec fn refusal(self, player: u64, column: int) -> Option<GameError> {
        if !self.active || self.grid is None {
            Some(GameError::BoardNotReady)
        } else if self.outcome != WinState::Ongoing {
            Some(GameError::GameEnded)
        } else if player != self.legal_mover() {
            Some(GameError::NotYourMove)
        } else {
            match drop_outcome(self.grid->0, column) {
                Err(e) => Some(e),
                Ok(_) => None,
            }
        }
    }

    /// The match after `player` asked to move into `column`: unchanged where
    /// the move is refused, else with the coin dropped, the mover recorded
    /// and the outcome settled.
    pub open spec fn after_play(self, player: u64, column: int) -> Game {
        if self.refusal(player, column) is Some {
            self
        } else {
            Game {
                grid: Some(after_drop(self.grid->0, column, self.coin_of(player))),
                last_mover: Some(player),
                ..self
            }.settle()
        }
    }

    /// What a move of `player` into `column` returns.
    pub open spec fn play_outcome(self, player: u64, column: int) -> Result<WinState, GameError> {
        match self.refusal(player, column) {
            Some(e) => Err(e),
            None => Ok(self.after_play(player, column).outcome),
        }
    }

    /// The match after accepting the challenge: with a fresh grid, active.
    pub open spec fn accepted_now(self) -> Game {
        if self.grid is None {
            Game { grid: Some(blank()), accepted: true, active: true, ..self }
        } else {
            Game { accepted: true, ..self }
        }
    }
}

/// A match between two accounts: the challenger `player_1` and the
/// challenged `player_2`.
#[derive(Debug)]
pub struct ConnectFourBoardStruct {
    /// The grid, from acceptance until the match ends.
    pub state: Option<Vec<Vec<Coin>>>,
    /// This is the challenger.
    pub player_1: u64,
    pub player_2: u64,
    pub challenge_accepted: bool,
    pub id: BoardId,
    pub active: bool,
    pub last_played: Option<u64>,
    pub win_state: WinState,
}

impl View for ConnectFourBoardStruct {
    type V = Game;

    open spec fn view(&self) -> Game {
        Game {
            grid: match self.state {
                Some(grid) => Some(cells(&grid)),
                None => None,
            },
            player_1: self.player_1,
            player_2: self.player_2,
            accepted: self.challenge_accepted,
            id: self.id,
            active: self.active,
            last_mover: self.last_played,
            outcome: self.win_state,
        }
    }
}

/// A copy of a grid of any shape.
fn copy_grid(grid: &Vec<Vec<Coin>>) -> (copy: Vec<Vec<Coin>>)
    ensures
        cells(&copy) == cells(grid),
{
    let mut copy: Vec<Vec<Coin>> = Vec::with_capacity(grid.len());
    let mut r: usize = 0;
    while r < grid.len()
        invariant
            r <= grid@.len(),
            copy@.len() == r,
            forall|i: int| 0 <= i < r ==> (#[trigger] copy@[i])@ == grid@[i]@,
        decreases grid@.len() - r,
    {
        let mut row: Vec<Coin> = Vec::with_capacity(grid[r].len());
        let mut c: usize = 0;
        while c < grid[r].len()
            invariant
                r < grid@.len(),
                c <= grid@[r as int]@.len(),
                row@.len() == c,
                forall|j: int| 0 <= j < c ==> #[trigger] row@[j] == grid@[r as int]@[j],
            decreases grid@[r as int]@.len() - c,
        {
            row.push(grid[r][c]);
            c += 1;
        }
        assert(row@ =~= grid@[r as int]@);
        copy.push(row);
        r += 1;
    }
    assert(cells(&copy) =~= cells(grid));
    copy
}

impl Clone for ConnectFourBoardStruct {
    fn clone(&self) -> (copy: Self)
        ensures
            copy@ == self@,
    {
        ConnectFourBoardStruct {
            state: match &self.state {
                Some(grid) => Some(copy_grid(grid)),
                None => None,
            },
            player_1: self.player_1,
            player_2: self.player_2,
            challenge_accepted: self.challenge_accepted,
            id: self.id,
            active: self.active,
            last_played: self.last_played,
            win_state: self.win_state,
        }
    }
}

impl Default for ConnectFourBoardStruct {
    fn default() -> (game: Self)
        ensures
            game@ == Game::pending(BoardId { high: 0, low: 0 }, 0, 0),
    {
        ConnectFourBoardStruct::new(BoardId { high: 0, low: 0 }, 0, 0)
    }
}

impl ConnectFourBoardStruct {
    /// A pending match between the challenger `player_1` and `player_2`.
    pub fn new(board_id: BoardId, player_1: u64, player_2: u64) -> (game: Self)
        ensures
            game@ == Game::pending(board_id, player_1, player_2),
    {
        ConnectFourBoardStruct {
            state: None,
            challenge_accepted: false,
            id: board_id,
            active: false,
            player_1,
            player_2,
            last_played: None,
            win_state: WinState::Ongoing,
        }
    }

    /// Replaces the grid.
    pub fn set_state(&mut self, state: Vec<Vec<Coin>>)
        ensures
            final(self)@ == (Game { grid: Some(cells(&state)), ..old(self)@ }),
    {
        self.state = Some(state);
    }

    /// Gives the match an empty grid and makes it active, unless it has a grid.
    pub fn create_game_board(&mut self) -> (made: Result<(), GameError>)
        ensures
            old(self)@.grid is None ==> made == Ok::<(), GameError>(()) && final(self)@ == (Game {
                grid: Some(blank()),
                active: true,
                ..old(self)@
            }),
            old(self)@.grid is Some ==> made == Err::<(), GameError>(GameError::BoardExistsError)
                && final(self)@ == old(self)@,
    {
        match self.state {
            None => {
                self.state = Some(empty_grid());
                self.active = true;
                Ok(())
            },
            Some(_) => Err(GameError::BoardExistsError),
        }
    }

    /// Settles the outcome of the match from its grid and returns it. Four in
    /// a row, or a grid without an empty cell, end the match: it is then no
    /// longer active and gives up its grid.
    pub fn get_winner(&mut self) -> (outcome: WinState)
        requires
            old(self)@.outcome == WinState::Ongoing ==> old(self)@.grid is Some,
            old(self)@.shaped(),
        ensures
            final(self)@ == old(self)@.settle(),
            outcome == final(self)@.outcome,
    {
        match self.win_state {
            WinState::Ongoing => {},
            WinState::Player(player) => {
                return WinState::Player(player);
            },
            WinState::Draw => {
                return WinState::Draw;
            },
        }
        let found: Option<Coin> = match &self.state {
            Some(grid) => detect_win(grid),
            None => None,
        };
        match found {
            Some(Coin::Player1) => {
                self.finish(WinState::Player(Player::One));
                WinState::Player(Player::One)
            },
            Some(Coin::Player2) => {
                self.finish(WinState::Player(Player::Two));
                WinState::Player(Player::Two)
            },
            _ => {
                if self.is_playable() {
                    WinState::Ongoing
                } else {
                    self.finish(WinState::Draw);
                    WinState::Draw
                }
            },
        }
    }

    /// Ends the match with the given outcome and gives up the grid.
    fn finish(&mut self, outcome: WinState)
        ensures
            final(self)@ == old(self)@.ended(outcome),
    {
        self.active = false;
        self.state = None;
        self.win_state = outcome;
    }

    /// Settles the outcome of the match, and says whether a player has won.
    /// A draw has no winner.
    pub fn has_winner(&mut self) -> (won: bool)
        requires
            old(self)@.outcome == WinState::Ongoing ==> old(self)@.grid is Some,
            old(self)@.shaped(),
        ensures
            final(self)@ == old(self)@.settle(),
            won == (final(self)@.outcome is Player),
    {
        match self.get_winner() {
            WinState::Player(_) => true,
            _ => false,
        }
    }

    /// Whether the match has a grid with an empty cell in it.
    pub fn is_playable(&self) -> (playable: bool)
        ensures
            playable == (self@.grid is Some && has_empty(self@.grid->0)),
    {
        match &self.state {
            Some(grid) => any_empty(grid),
            None => false,
        }
    }

    /// A move of `player` into `column`. The match must be active and open,
    /// and it must be the player's turn; the column must exist and have room.
    /// A refused move changes nothing. An accepted one drops the player's
    /// coin, records the mover, settles the outcome and returns it.
    pub fn play(&mut self, player: u64, column: usize) -> (moved: Result<WinState, GameError>)
        requires
            old(self)@.shaped(),
        ensures
            moved == old(self)@.play_outcome(player, column as int),
            final(self)@ == old(self)@.after_play(player, column as int),
    {
        if !self.active || self.state.is_none() {
            return Err(GameError::BoardNotReady);
        }
        if self.win_state != WinState::Ongoing {
            return Err(GameError::GameEnded);
        }
        let expected: u64 = match self.last_played {
            None => self.player_1,
            Some(last) => if last == self.player_1 {
                self.player_2
            } else {
                self.player_1
            },
        };
        if player != expected {
            return Err(GameError::NotYourMove);
        }
        let coin: Coin = if player == self.player_1 {
            Coin::Player1
        } else {
            Coin::Player2
        };
        let mut grid: Vec<Vec<Coin>> = self.state.take().unwrap();
        let landed: Result<usize, GameError> = drop_coin(&mut grid, column, coin);
        self.state = Some(grid);
        match landed {
            Err(e) => Err(e),
            Ok(_) => {
                self.last_played = Some(player);
                Ok(self.get_winner())
            },
        }
    }
}

/// A new challenge between two different accounts is a pending match.
pub proof fn lemma_pending_is_wf(id: BoardId, player_1: u64, player_2: u64)
    requires
        player_1 != player_2,
    ensures
        Game::pending(id, player_1, player_2).wf(),
{
}

/// Accepting a pending match puts it in progress.
pub proof fn lemma_accept_keeps_wf(game: Game)
    requires
        game.wf(),
        !game.accepted,
    ensures
        game.accepted_now().wf(),
        game.accepted_now().active,
        game.accepted_now().outcome == WinState::Ongoing,
{
    lemma_blank();
}

/// A move, accepted or refused, leaves a match in a state of its lifecycle.
/// An accepted move that ends the match in a win ends it in favour of the
/// mover.
pub proof fn lemma_play_keeps_wf(game: Game, player: u64, column: int)
    requires
        game.wf(),
    ensures
        game.after_play(player, column).wf(),
        game.after_play(player, column).player_1 == game.player_1,
        game.after_play(player, column).player_2 == game.player_2,
        game.after_play(player, column).id == game.id,
        game.after_play(player, column).accepted == game.accepted,
        game.refusal(player, column) is None ==> game.after_play(player, column).last_mover
            == Some(player),
        game.refusal(player, column) is None ==> match game.after_play(player, column).outcome {
            WinState::Player(side) => side.coin() == game.coin_of(player),
            _ => true,
        },
{
    if game.refusal(player, column) is None {
        let grid = game.grid->0;
        let coin = game.coin_of(player);
        let row = landing_row(grid, column);
        lemma_landing_row(grid, column);
        lemma_with_coin_keeps_shape(grid, row, column, coin);
        lemma_only_the_new_coin_wins(grid, row, column, coin);
        lemma_drop_keeps_gravity(grid, column, coin);
        lemma_winner(after_drop(grid, column, coin));
    }
}

/// The match after the moves in `moves`, made one after the other.
pub open spec fn after_moves(game: Game, moves: Seq<(u64, int)>) -> Game
    decreases moves.len(),
{
    if moves.len() == 0 {
        game
    } else {
        after_moves(game.after_play(moves[0].0, moves[0].1), moves.drop_first())
    }
}

/// Every move in `moves`, made one after the other, is accepted.
pub open spec fn all_accepted(game: Game, moves: Seq<(u64, int)>) -> bool
    decreases moves.len(),
{
    moves.len() > 0 ==> game.refusal(moves[0].0, moves[0].1) is None && all_accepted(
        game.after_play(moves[0].0, moves[0].1),
        moves.drop_first(),
    )
}

/// Turns alternate. In a run of accepted moves no account moves twice in a
/// row, and where no move was made before the run, its first mover is the
/// challenger. Each entry of `moves` is a mover and a column.
pub proof fn lemma_turns_alternate(game: Game, moves: Seq<(u64, int)>)
    requires
        game.wf(),
        all_accepted(game, moves),
    ensures
        forall|k: int| 0 < k < moves.len() ==> (#[trigger] moves[k]).0 != moves[k - 1].0,
        moves.len() > 0 && game.last_mover is None ==> moves[0].0 == game.player_1,
        moves.len() > 0 && game.last_mover is Some ==> moves[0].0 != game.last_mover->0,
    decreases moves.len(),
{
    if moves.len() > 0 {
        let next = game.after_play(moves[0].0, moves[0].1);
        let rest = moves.drop_first();
        lemma_play_keeps_wf(game, moves[0].0, moves[0].1);
        lemma_turns_alternate(next, rest);
        assert forall|k: int| 0 < k < moves.len() implies (#[trigger] moves[k]).0 != moves[k
            - 1].0 by {
            if k == 1 {
                assert(rest[0] == moves[1]);
            } else {
                assert(rest[k - 1] == moves[k]);
                assert(rest[k - 2] == moves[k - 1]);
            }
        }
    }
}

/// Four equal coins of a player in a row end an open match, wherever they
/// lie and in whichever direction they run: the match has a winner, is no
/// longer active and has given up its grid.
pub proof fn lemma_four_ends_the_match(game: Game, r: int, c: int, d: Direction, coin: Coin)
    requires
        game.outcome == WinState::Ongoing,
        game.grid is Some,
        coin != Coin::Empty,
        four_at(game.grid->0, r, c, d, coin),
    ensures
        game.settle().outcome is Player,
        !game.settle().active,
        game.settle().grid is None,
{
    lemma_four_is_found(game.grid->0, r, c, d, coin);
    lemma_winner(game.grid->0);
}

/// A grid without an empty cell that no one has won ends an open match in a
/// draw: the match is no longer active and has given up its grid.
pub proof fn lemma_full_grid_is_a_draw(game: Game)
    requires
        game.outcome == WinState::Ongoing,
        game.grid is Some,
        !has_empty(game.grid->0),
        winner_of(game.grid->0) is None,
    ensures
        game.settle() == game.ended(WinState::Draw),
        game.settle().outcome == WinState::Draw,
        !game.settle().active,
        game.settle().grid is None,
{
}

} // verus!
