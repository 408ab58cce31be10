//! The engine: the stores of matches, challenges and score cards, and the
//! three operations on them.

use std::collections::HashMap;
use vstd::prelude::*;
use vstd::pervasive::unreached;
use crate::coin::{Player, WinState};
use crate::game::{
    lemma_accept_keeps_wf, lemma_pending_is_wf, lemma_play_keeps_wf, BoardId,
    ConnectFourBoardStruct, Game, GameError,
};
use crate::nonce::{little_endian, scale_encode};
use crate::score::ScoreCard;

verus! {

broadcast use vstd::std_specs::hash::group_hash_axioms;

/// The points that the outcomes of a match are worth.
#[derive(Clone, Copy, Debug, PartialEq, Eq, Structural)]
pub struct Config {
    /// Points added to the winner's score card.
    pub points_for_win: u32,
    /// Points deducted from the loser's score card.
    pub points_for_loss: u32,
    /// Points added to both score cards after a draw.
    pub points_for_draw: u32,
}

/// What the engine reports to whoever listens.
#[derive(Clone, Copy, Debug, PartialEq, Eq, Structural)]
pub enum Event {
    /// A challenge has been received: the challenged, then the challenger.
    ChallengeReceived(u64, u64),
    /// A challenge has been accepted: the challenged, then the challenger.
    ChallengeAccepted(u64, u64),
    /// A challenge has been denied.
    ChallengeDenied(u64, u64),
    /// A new match was created.
    GameCreated(BoardId),
    /// A match has ended.
    GameEnded(BoardId),
    /// An account has made a move against another.
    MoveMade(u64, u64),
    /// An account has won a match.
    GameWon(u64, BoardId),
    /// A match was drawn.
    GameDrawn(BoardId),
}

/// Why an operation of the engine was refused.
#[derive(Clone, Copy, Debug, PartialEq, Eq, Structural)]
pub enum Error {
    /// A challenge already exists between these two accounts.
    ChallengeExists,
    /// A match already exists between these two accounts.
    ActiveGameExists,
    /// The column does not exist.
    InvalidColumnForMove,
    /// You are not a participant in this match.
    NotYourBoard,
    /// There is no match between these two accounts.
    GameDoesNotExist,
    /// There are no more moves possible on this board.
    NoMovesRemaining,
    /// This is not your move.
    NotYourMove,
    /// You cannot start a match against yourself.
    CannotPlayYourself,
    /// You cannot accept your own challenge.
    CannotAcceptYourOwnChallenge,
    /// The current board state is invalid.
    BoardInvalid,
    /// There is no such challenge.
    ChallengeDoesNotExist,
    BoardExistsError,
    BoardNotReady,
    ColumnFull,
    GameEnded,
    NoPlayableMove,
    UnknownError,
    ChallengeNotYetAccepted,
}

impl Error {
    /// The engine's name for a refusal of the match.
    pub open spec fn of(e: GameError) -> Error {
        match e {
            GameError::BoardExistsError => Error::BoardExistsError,
            GameError::NotYourMove => Error::NotYourMove,
            GameError::NoPlayableMove => Error::NoPlayableMove,
            GameError::InvalidColumnForMove => Error::InvalidColumnForMove,
            GameError::ColumnFull => Error::ColumnFull,
            GameError::BoardNotReady => Error::BoardNotReady,
            GameError::GameEnded => Error::GameEnded,
        }
    }

    /// Passes a refusal of the match on under the same name.
    pub fn from_game_error(e: GameError) -> (error: Error)
        ensures
            error == Error::of(e),
    {
        match e {
            GameError::BoardExistsError => Error::BoardExistsError,
            GameError::NotYourMove => Error::NotYourMove,
            GameError::NoPlayableMove => Error::NoPlayableMove,
            GameError::InvalidColumnForMove => Error::InvalidColumnForMove,
            GameError::ColumnFull => Error::ColumnFull,
            GameError::BoardNotReady => Error::BoardNotReady,
            GameError::GameEnded => Error::GameEnded,
        }
    }
}

/// The value of the nonce before the first challenge.
#[allow(non_snake_case)]
pub fn NonceDefault() -> (nonce: u64)
    ensures
        nonce == 0,
{
    0
}

/// The state of the engine as the contracts see it.
pub struct Store {
    /// The points that outcomes are worth.
    pub config: Config,
    /// The counter from which the next subject is made.
    pub nonce: u64,
    /// The identifiers of all matches, in the order of their creation.
    pub board_ids: Seq<BoardId>,
    /// Every match ever created, by its identifier.
    pub boards: Map<BoardId, Game>,
    /// The match of each pair of accounts that has a live one. A pair is
    /// entered in both orders.
    pub challenges: Map<(u64, u64), BoardId>,
    /// The score cards of the accounts that have one.
    pub scorecards: Map<u64, ScoreCard>,
    /// The events that were reported and not yet fetched.
    pub events: Seq<Event>,
}

/// The card of `who` in `cards`: all zero where there is none.
pub open spec fn card_in(cards: Map<u64, ScoreCard>, who: u64) -> ScoreCard {
    if cards.contains_key(who) {
        cards[who]
    } else {
        ScoreCard::zero()
    }
}

impl Store {
    /// The state of a new engine.
    pub open spec fn initial(config: Config) -> Store {
        Store {
            config,
            nonce: 0,
            board_ids: Seq::empty(),
            boards: Map::empty(),
            challenges: Map::empty(),
            scorecards: Map::empty(),
            events: Seq::empty(),
        }
    }

    /// The score card of `who`: all zero if the account has none yet.
    pub open spec fn card(self, who: u64) -> ScoreCard {
        card_in(self.scorecards, who)
    }

    /// The match that the entry of `a` and `b` leads to.
    pub open spec fn game_of(self, a: u64, b: u64) -> Game {
        self.boards[self.challenges[(a, b)]]
    }

    /// What holds of every entry of a pair: it is entered in the other order
    /// too, and leads to an undecided match between the two.
    pub open spec fn live_pair(self, a: u64, b: u64) -> bool {
        &&& a != b
        &&& self.challenges.contains_key((b, a))
        &&& self.challenges[(b, a)] == self.challenges[(a, b)]
        &&& self.boards.contains_key(self.challenges[(a, b)])
        &&& self.game_of(a, b).outcome == WinState::Ongoing
        &&& (self.game_of(a, b).player_1 == a && self.game_of(a, b).player_2 == b) || (
        self.game_of(a, b).player_1 == b && self.game_of(a, b).player_2 == a)
    }

    /// Every match is in a state of its lifecycle and stored under its own
    /// identifier, and every entry of a pair is a live one.
    pub open spec fn wf(self) -> bool {
        &&& forall|a: u64, b: u64| #[trigger]
            self.challenges.contains_key((a, b)) ==> self.live_pair(a, b)
        &&& forall|id: BoardId| #[trigger]
            self.boards.contains_key(id) ==> self.boards[id].wf() && self.boards[id].id == id
    }

    /// Why a challenge of `opponent` by `challenger` is refused, if it is.
    pub open spec fn challenge_refusal(self, challenger: u64, opponent: u64) -> Option<Error> {
        if challenger == opponent {
            Some(Error::CannotPlayYourself)
        } else if self.challenges.contains_key((opponent, challenger))
            || self.challenges.contains_key((challenger, opponent)) {
            Some(Error::ChallengeExists)
        } else {
            None
        }
    }

    /// The state after `challenger` asked to challenge `opponent` to a match
    /// that is to be stored under `id`.
    pub open spec fn after_challenge(self, challenger: u64, opponent: u64, id: BoardId) -> Store {
        if self.challenge_refusal(challenger, opponent) is Some {
            self
        } else {
            Store {
                boards: self.boards.insert(id, Game::pending(id, challenger, opponent)),
                board_ids: self.board_ids.push(id),
                challenges: self.challenges.insert((opponent, challenger), id).insert(
                    (challenger, opponent),
                    id,
                ),
                events: self.events.push(Event::ChallengeReceived(opponent, challenger)).push(
                    Event::GameCreated(id),
                ),
                ..self
            }
        }
    }

    /// Why `challenged` cannot accept the challenge of `challenger`, if so.
    pub open spec fn accept_refusal(self, challenged: u64, challenger: u64) -> Option<Error> {
        if challenged == challenger {
            Some(Error::CannotPlayYourself)
        } else if !self.challenges.contains_key((challenged, challenger)) {
            Some(Error::ChallengeDoesNotExist)
        } else if self.game_of(challenged, challenger).player_1 == challenged {
            Some(Error::CannotAcceptYourOwnChallenge)
        } else if self.game_of(challenged, challenger).accepted {
            Some(Error::ActiveGameExists)
        } else {
            None
        }
    }

    /// The state after `challenged` asked to accept the challenge of
    /// `challenger`: the match gets its grid and becomes active, and both of
    /// its players have played one match more.
    pub open spec fn after_accept(self, challenged: u64, challenger: u64) -> Store {
        if self.accept_refusal(challenged, challenger) is Some {
            self
        } else {
            let id = self.challenges[(challenged, challenger)];
            let game = self.boards[id];
            let first = self.card(game.player_1).with_match();
            let second = self.card(game.player_2).with_match();
            Store {
                boards: self.boards.insert(id, game.accepted_now()),
                scorecards: self.scorecards.insert(game.player_1, first).insert(
                    game.player_2,
                    second,
                ),
                events: self.events.push(Event::ChallengeAccepted(challenged, challenger)),
                ..self
            }
        }
    }

    /// Why a move of `player` against `other` into `column` is refused, if
    /// it is.
    pub open spec fn play_refusal(self, player: u64, other: u64, column: int) -> Option<Error> {
        if !self.challenges.contains_key((player, other)) {
            Some(Error::GameDoesNotExist)
        } else if !self.game_of(player, other).accepted {
            Some(Error::ChallengeNotYetAccepted)
        } else if !self.game_of(player, other).active {
            Some(Error::GameEnded)
        } else {
            match self.game_of(player, other).refusal(player, column) {
                Some(e) => Some(Error::of(e)),
                None => None,
            }
        }
    }

    /// The score cards after the match `game` has ended in `outcome`.
    pub open spec fn settled_cards(self, game: Game, outcome: WinState) -> Map<u64, ScoreCard> {
        let first = self.card(game.player_1);
        let second = self.card(game.player_2);
        match outcome {
            WinState::Player(Player::One) => self.scorecards.insert(
                game.player_1,
                first.with_win(self.config.points_for_win),
            ).insert(game.player_2, second.with_loss(self.config.points_for_loss)),
            WinState::Player(Player::Two) => self.scorecards.insert(
                game.player_1,
                first.with_loss(self.config.points_for_loss),
            ).insert(game.player_2, second.with_win(self.config.points_for_win)),
            WinState::Draw => self.scorecards.insert(
                game.player_1,
                first.with_draw(self.config.points_for_draw),
            ).insert(game.player_2, second.with_draw(self.config.points_for_draw)),
            WinState::Ongoing => self.scorecards,
        }
    }

    /// The events that a move of `player` against `other` raises when it
    /// leaves the match `game` with `outcome`.
    pub open spec fn move_events(player: u64, other: u64, game: Game, outcome: WinState) -> Seq<
        Event,
    > {
        match outcome {
            WinState::Player(Player::One) => seq![
                Event::MoveMade(player, other),
                Event::GameWon(game.player_1, game.id),
                Event::GameEnded(game.id),
            ],
            WinState::Player(Player::Two) => seq![
                Event::MoveMade(player, other),
                Event::GameWon(game.player_2, game.id),
                Event::GameEnded(game.id),
            ],
            WinState::Draw => seq![
                Event::MoveMade(player, other),
                Event::GameEnded(game.id),
                Event::GameDrawn(game.id),
            ],
            WinState::Ongoing => seq![Event::MoveMade(player, other)],
        }
    }

    /// The state after `player` asked to move against `other` into `column`.
    /// An accepted move changes the match; one that ends it also settles the
    /// score cards and removes the entries of the pair.
    pub open spec fn after_play(self, player: u64, other: u64, column: int) -> Store {
        if self.play_refusal(player, other, column) is Some {
            self
        } else {
            let id = self.challenges[(player, other)];
            let next = self.boards[id].after_play(player, column);
            Store {
                boards: self.boards.insert(id, next),
                challenges: if next.outcome == WinState::Ongoing {
                    self.challenges
                } else {
                    self.challenges.remove((player, other)).remove((other, player))
                },
                scorecards: self.settled_cards(next, next.outcome),
                events: self.events + Store::move_events(player, other, next, next.outcome),
                ..self
            }
        }
    }

    /// What a move of `player` against `other` into `column` returns.
    pub open spec fn play_outcome(self, player: u64, other: u64, column: int) -> Result<
        WinState,
        Error,
    > {
        match self.play_refusal(player, other, column) {
            Some(e) => Err(e),
            None => Ok(
                self.boards[self.challenges[(player, other)]].after_play(player, column).outcome,
            ),
        }
    }
}

/// The key under which the entry of the pair `a`, `b` is kept.
pub open spec fn pair_key(a: u64, b: u64) -> u128 {
    (a * 0x1_0000_0000_0000_0000 + b) as u128
}

/// The entries of the pairs that are kept under their keys in `m`.
pub open spec fn pair_map(m: Map<u128, BoardId>) -> Map<(u64, u64), BoardId> {
    Map::new(|p: (u64, u64)| m.contains_key(pair_key(p.0, p.1)), |p: (u64, u64)| m[pair_key(p.0, p.1)])
}

/// Some match in `boards` is stored under `id`.
pub open spec fn stored(boards: Seq<ConnectFourBoardStruct>, id: BoardId) -> bool {
    exists|i: int| 0 <= i < boards.len() && (#[trigger] boards[i]).id == id
}

/// A place in `boards` of a match stored under `id`.
pub open spec fn place_of(boards: Seq<ConnectFourBoardStruct>, id: BoardId) -> int {
    choose|i: int| 0 <= i < boards.len() && (#[trigger] boards[i]).id == id
}

/// No two matches in `boards` are stored under the same identifier.
pub open spec fn distinct_ids(boards: Seq<ConnectFourBoardStruct>) -> bool {
    forall|i: int, j: int|
        0 <= i < j < boards.len() ==> (#[trigger] boards[i]).id != (#[trigger] boards[j]).id
}

/// The matches in `boards`, each under its identifier.
pub open spec fn board_map(boards: Seq<ConnectFourBoardStruct>) -> Map<BoardId, Game> {
    Map::new(|id: BoardId| stored(boards, id), |id: BoardId| boards[place_of(boards, id)]@)
}

proof fn lemma_pair_key_injective(a: u64, b: u64, c: u64, d: u64)
    ensures
        pair_key(a, b) == pair_key(c, d) <==> a == c && b == d,
{
}

proof fn lemma_pair_insert(m: Map<u128, BoardId>, a: u64, b: u64, id: BoardId)
    ensures
        pair_map(m.insert(pair_key(a, b), id)) == pair_map(m).insert((a, b), id),
{
    assert forall|p: (u64, u64)| pair_key(p.0, p.1) == pair_key(a, b) <==> p == (a, b) by {
        lemma_pair_key_injective(p.0, p.1, a, b);
    }
    assert(pair_map(m.insert(pair_key(a, b), id)) =~= pair_map(m).insert((a, b), id));
}

proof fn lemma_pair_remove(m: Map<u128, BoardId>, a: u64, b: u64)
    ensures
        pair_map(m.remove(pair_key(a, b))) == pair_map(m).remove((a, b)),
{
    assert forall|p: (u64, u64)| pair_key(p.0, p.1) == pair_key(a, b) <==> p == (a, b) by {
        lemma_pair_key_injective(p.0, p.1, a, b);
    }
    assert(pair_map(m.remove(pair_key(a, b))) =~= pair_map(m).remove((a, b)));
}

proof fn lemma_place(boards: Seq<ConnectFourBoardStruct>, i: int)
    requires
        distinct_ids(boards),
        0 <= i < boards.len(),
    ensures
        stored(boards, boards[i].id),
        place_of(boards, boards[i].id) == i,
        board_map(boards).contains_key(boards[i].id),
        board_map(boards)[boards[i].id] == boards[i]@,
{
    let j = place_of(boards, boards[i].id);
    assert(0 <= j < boards.len() && boards[j].id == boards[i].id);
}

proof fn lemma_board_push(boards: Seq<ConnectFourBoardStruct>, b: ConnectFourBoardStruct)
    requires
        distinct_ids(boards),
        !stored(boards, b.id),
    ensures
        distinct_ids(boards.push(b)),
        board_map(boards.push(b)) == board_map(boards).insert(b.id, b@),
{
    let after = boards.push(b);
    assert forall|i: int, j: int| 0 <= i < j < after.len() implies (#[trigger] after[i]).id != (
    #[trigger] after[j]).id by {
        assert(after[i] == boards[i]);
        if j < boards.len() {
            assert(after[j] == boards[j]);
        }
    }
    assert forall|id: BoardId| #[trigger]
        board_map(after).contains_key(id) == board_map(boards).insert(b.id, b@).contains_key(
            id,
        ) by {
        if stored(boards, id) {
            let i = place_of(boards, id);
            assert(after[i] == boards[i]);
        }
        if stored(after, id) {
            let i = place_of(after, id);
            if i < boards.len() {
                assert(after[i] == boards[i]);
            }
        }
        if id == b.id {
            assert(after[boards.len() as int] == b);
        }
    }
    assert forall|id: BoardId| #[trigger] board_map(after).contains_key(id) implies board_map(
        after,
    )[id] == board_map(boards).insert(b.id, b@)[id] by {
        let i = place_of(after, id);
        if i < boards.len() {
            assert(after[i] == boards[i]);
            lemma_place(boards, i);
        }
    }
    assert(board_map(after) =~= board_map(boards).insert(b.id, b@));
}

proof fn lemma_board_update(
    boards: Seq<ConnectFourBoardStruct>,
    at: int,
    b: ConnectFourBoardStruct,
)
    requires
        distinct_ids(boards),
        0 <= at < boards.len(),
        b.id == boards[at].id,
    ensures
        distinct_ids(boards.update(at, b)),
        board_map(boards.update(at, b)) == board_map(boards).insert(b.id, b@),
{
    let after = boards.update(at, b);
    assert forall|i: int| 0 <= i < after.len() implies (#[trigger] after[i]).id == boards[i].id by {}
    assert forall|i: int, j: int| 0 <= i < j < after.len() implies (#[trigger] after[i]).id != (
    #[trigger] after[j]).id by {
        assert(boards[i].id != boards[j].id);
    }
    assert forall|id: BoardId| #[trigger]
        board_map(after).contains_key(id) == board_map(boards).insert(b.id, b@).contains_key(
            id,
        ) by {
        if stored(boards, id) {
            let i = place_of(boards, id);
            assert(after[i].id == id);
        }
        if stored(after, id) {
            let i = place_of(after, id);
            assert(boards[i].id == id);
        }
    }
    assert forall|id: BoardId| #[trigger] board_map(after).contains_key(id) implies board_map(
        after,
    )[id] == board_map(boards).insert(b.id, b@)[id] by {
        let i = place_of(after, id);
        assert(boards[i].id == id);
        lemma_place(boards, i);
        if i != at {
            assert(after[i] == boards[i]);
        } else {
            assert(after[i] == b);
        }
    }
    assert(board_map(after) =~= board_map(boards).insert(b.id, b@));
}

/// A challenge under an identifier that is not in use leaves the state well
/// formed.
pub proof fn lemma_challenge_keeps_wf(s: Store, challenger: u64, opponent: u64, id: BoardId)
    requires
        s.wf(),
        !s.boards.contains_key(id),
    ensures
        s.after_challenge(challenger, opponent, id).wf(),
{
    let t = s.after_challenge(challenger, opponent, id);
    if s.challenge_refusal(challenger, opponent) is None {
        lemma_pending_is_wf(id, challenger, opponent);
        assert forall|a: u64, b: u64| #[trigger] t.challenges.contains_key((a, b)) implies t.live_pair(
            a,
            b,
        ) by {
            if (a, b) != (challenger, opponent) && (a, b) != (opponent, challenger) {
                assert(s.challenges.contains_key((a, b)));
                assert(s.live_pair(a, b));
                assert(s.challenges.contains_key((b, a)));
            }
        }
    }
}

/// Accepting a challenge leaves the state well formed, and where it
/// succeeds the accepting account is the second player of the match and
/// the challenger the first.
pub proof fn lemma_accept_keeps_store_wf(s: Store, challenged: u64, challenger: u64)
    requires
        s.wf(),
    ensures
        s.after_accept(challenged, challenger).wf(),
        s.accept_refusal(challenged, challenger) is None ==> s.game_of(
            challenged,
            challenger,
        ).player_1 == challenger && s.game_of(challenged, challenger).player_2 == challenged,
{
    let t = s.after_accept(challenged, challenger);
    if s.accept_refusal(challenged, challenger) is None {
        let id = s.challenges[(challenged, challenger)];
        assert(s.live_pair(challenged, challenger));
        lemma_accept_keeps_wf(s.boards[id]);
        assert forall|a: u64, b: u64| #[trigger] t.challenges.contains_key((a, b)) implies t.live_pair(
            a,
            b,
        ) by {
            assert(s.live_pair(a, b));
        }
    }
}

/// A move leaves the state well formed, and where it is accepted the two
/// accounts are the players of the match.
pub proof fn lemma_play_keeps_store_wf(s: Store, player: u64, other: u64, column: int)
    requires
        s.wf(),
    ensures
        s.after_play(player, other, column).wf(),
        s.challenges.contains_key((player, other)) ==> (s.game_of(player, other).player_1 == player
            && s.game_of(player, other).player_2 == other) || (s.game_of(player, other).player_1
            == other && s.game_of(player, other).player_2 == player),
{
    let t = s.after_play(player, other, column);
    if s.challenges.contains_key((player, other)) {
        assert(s.live_pair(player, other));
    }
    if s.play_refusal(player, other, column) is None {
        let id = s.challenges[(player, other)];
        let next = s.boards[id].after_play(player, column);
        lemma_play_keeps_wf(s.boards[id], player, column);
        assert forall|a: u64, b: u64| #[trigger] t.challenges.contains_key((a, b)) implies t.live_pair(
            a,
            b,
        ) by {
            assert(s.challenges.contains_key((a, b)));
            assert(s.live_pair(a, b));
            if s.challenges[(a, b)] == id {
                assert((a, b) == (player, other) || (a, b) == (other, player));
            }
        }
    }
}

/// A move never changes how many matches an account has played: that
/// number rises on acceptance alone, whatever the outcome.
pub proof fn lemma_play_keeps_played(s: Store, player: u64, other: u64, column: int, who: u64)
    ensures
        s.after_play(player, other, column).card(who).played == s.card(who).played,
{
}

/// After the move that ends a match the pair has no match any more: a
/// further move of either account against the other finds none.
pub proof fn lemma_ended_match_is_gone(s: Store, player: u64, other: u64, column: int, next: int)
    requires
        s.wf(),
        s.play_outcome(player, other, column) is Ok,
        s.play_outcome(player, other, column) != Ok::<WinState, Error>(WinState::Ongoing),
    ensures
        s.after_play(player, other, column).play_refusal(player, other, next) == Some(
            Error::GameDoesNotExist,
        ),
        s.after_play(player, other, column).play_refusal(other, player, next) == Some(
            Error::GameDoesNotExist,
        ),
{
}

/// The engine. It holds every match, the entries of the pairs with a live
/// match, the score cards, the nonce, and the events not yet fetched.
#[derive(Debug)]
pub struct Pallet {
    config: Config,
    nonce: u64,
    board_ids: Vec<BoardId>,
    boards: Vec<ConnectFourBoardStruct>,
    challenges: HashMap<u128, BoardId>,
    scorecards: HashMap<u64, ScoreCard>,
    events: Vec<Event>,
}

impl View for Pallet {
    type V = Store;

    closed spec fn view(&self) -> Store {
        Store {
            config: self.config,
            nonce: self.nonce,
            board_ids: self.board_ids@,
            boards: board_map(self.boards@),
            challenges: pair_map(self.challenges@),
            scorecards: self.scorecards@,
            events: self.events@,
        }
    }
}

impl Pallet {
    /// The engine holds a state that the operations can work on.
    pub closed spec fn wf(&self) -> bool {
        &&& distinct_ids(self.boards@)
        &&& self@.wf()
    }

    /// What an engine in order holds is well formed as a state.
    pub proof fn lemma_wf_state(&self)
        requires
            self.wf(),
        ensures
            self@.wf(),
    {
    }

    /// An engine without matches, entries, score cards or events.
    pub fn new(config: Config) -> (engine: Pallet)
        ensures
            engine.wf(),
            engine@ == Store::initial(config),
    {
        let engine = Pallet {
            config,
            nonce: NonceDefault(),
            board_ids: Vec::new(),
            boards: Vec::new(),
            challenges: HashMap::new(),
            scorecards: HashMap::new(),
            events: Vec::new(),
        };
        assert(engine@.boards =~= Map::empty());
        assert(engine@.challenges =~= Map::empty());
        engine
    }

    /// Where the match with identifier `id` is kept, if there is one.
    fn find_board(&self, id: BoardId) -> (at: Option<usize>)
        requires
            distinct_ids(self.boards@),
        ensures
            at is Some == self@.boards.contains_key(id),
            at is Some ==> at->0 < self.boards@.len() && self.boards@[at->0 as int].id == id
                && self.boards@[at->0 as int]@ == self@.boards[id],
    {
        let mut i: usize = 0;
        while i < self.boards.len()
            invariant
                i <= self.boards@.len(),
                distinct_ids(self.boards@),
                forall|j: int| 0 <= j < i ==> (#[trigger] self.boards@[j]).id != id,
            decreases self.boards@.len() - i,
        {
            if self.boards[i].id == id {
                proof {
                    lemma_place(self.boards@, i as int);
                }
                return Some(i);
            }
            i += 1;
        }
        None
    }

    /// The match of the pair `a`, `b`, if the pair has an entry.
    fn lookup(&self, a: u64, b: u64) -> (id: Option<BoardId>)
        ensures
            id is Some == self@.challenges.contains_key((a, b)),
            id is Some ==> id->0 == self@.challenges[(a, b)],
    {
        match self.challenges.get(&key_of(a, b)) {
            Some(id) => Some(*id),
            None => None,
        }
    }

    /// The score card of `who`: all zero if the account has none yet.
    pub fn get_scorecard(&self, who: u64) -> (card: ScoreCard)
        ensures
            card == self@.card(who),
    {
        match self.scorecards.get(&who) {
            Some(card) => *card,
            None => ScoreCard::new(),
        }
    }

    /// Whether the pair `a`, `b` has an entry, in this order.
    pub fn has_challenge(&self, a: u64, b: u64) -> (found: bool)
        ensures
            found == self@.challenges.contains_key((a, b)),
    {
        self.lookup(a, b).is_some()
    }

    /// The identifier of the match of the pair `a`, `b`: all zero if the pair
    /// has no entry.
    pub fn get_challenge(&self, a: u64, b: u64) -> (id: BoardId)
        ensures
            id == if self@.challenges.contains_key((a, b)) {
                self@.challenges[(a, b)]
            } else {
                (BoardId { high: 0, low: 0 })
            },
    {
        match self.lookup(a, b) {
            Some(id) => id,
            None => BoardId { high: 0, low: 0 },
        }
    }

    /// The identifiers of all matches, in the order of their creation.
    pub fn get_all_board_ids(&self) -> (ids: Vec<BoardId>)
        ensures
            ids@ == self@.board_ids,
    {
        let mut ids: Vec<BoardId> = Vec::with_capacity(self.board_ids.len());
        let mut i: usize = 0;
        while i < self.board_ids.len()
            invariant
                i <= self.board_ids@.len(),
                ids@ == self.board_ids@.take(i as int),
            decreases self.board_ids@.len() - i,
        {
            ids.push(self.board_ids[i]);
            assert(self.board_ids@.take(i + 1) =~= self.board_ids@.take(i as int).push(
                self.board_ids@[i as int],
            ));
            i += 1;
        }
        assert(self.board_ids@.take(i as int) =~= self.board_ids@);
        ids
    }

    /// A copy of the match that is stored under `id`, if there is one.
    pub fn get_connect_four_board_by_id(&self, id: BoardId) -> (board: Option<
        ConnectFourBoardStruct,
    >)
        requires
            self.wf(),
        ensures
            board is Some == self@.boards.contains_key(id),
            board is Some ==> board->0@ == self@.boards[id],
    {
        match self.find_board(id) {
            Some(at) => Some(self.boards[at].clone()),
            None => None,
        }
    }

    /// Hands over the events that were reported since the last call, oldest
    /// first, and forgets them.
    pub fn take_events(&mut self) -> (events: Vec<Event>)
        requires
            old(self).wf(),
        ensures
            final(self).wf(),
            events@ == old(self)@.events,
            final(self)@ == (Store { events: Seq::empty(), ..old(self)@ }),
    {
        let mut events: Vec<Event> = Vec::new();
        std::mem::swap(&mut events, &mut self.events);
        events
    }

    /// Returns the subject for the next identifier, which is the nonce in
    /// its encoded form, and advances the nonce by one. After the largest
    /// nonce comes zero.
    pub fn encode_and_update_nonce(&mut self) -> (subject: Vec<u8>)
        requires
            old(self).wf(),
        ensures
            final(self).wf(),
            subject@ == little_endian(old(self)@.nonce),
            final(self)@ == (Store {
                nonce: if old(self)@.nonce == u64::MAX {
                    0
                } else {
                    (old(self)@.nonce + 1) as u64
                },
                ..old(self)@
            }),
    {
        let nonce: u64 = self.nonce;
        self.nonce = nonce.wrapping_add(1);
        scale_encode(nonce)
    }

    /// Whether `challenger` may challenge `opponent`, and if not, why not.
    /// Nothing is changed.
    pub fn check_challenge(&self, challenger: u64, opponent: u64) -> (allowed: Result<(), Error>)
        ensures
            allowed == match self@.challenge_refusal(challenger, opponent) {
                Some(e) => Err::<(), Error>(e),
                None => Ok::<(), Error>(()),
            },
    {
        if challenger == opponent {
            return Err(Error::CannotPlayYourself);
        }
        let received: bool = self.lookup(opponent, challenger).is_some();
        let sent: bool = self.lookup(challenger, opponent).is_some();
        if received || sent {
            return Err(Error::ChallengeExists);
        }
        Ok(())
    }

    /// `challenger` challenges `opponent` to a match, which is stored under
    /// `board_id`, an identifier that no match has yet. An account cannot
    /// challenge itself, nor an account with which it shares a live
    /// challenge or match, whoever made it. A refused challenge changes
    /// nothing.
    pub fn challenge_player(&mut self, challenger: u64, opponent: u64, board_id: BoardId) -> (made:
        Result<(), Error>)
        requires
            old(self).wf(),
            !old(self)@.boards.contains_key(board_id),
        ensures
            final(self).wf(),
            made == match old(self)@.challenge_refusal(challenger, opponent) {
                Some(e) => Err::<(), Error>(e),
                None => Ok::<(), Error>(()),
            },
            final(self)@ == old(self)@.after_challenge(challenger, opponent, board_id),
    {
        match self.check_challenge(challenger, opponent) {
            Err(e) => {
                return Err(e);
            },
            Ok(_) => {},
        }
        let board = ConnectFourBoardStruct::new(board_id, challenger, opponent);
        proof {
            lemma_board_push(self.boards@, board);
            lemma_pair_insert(self.challenges@, opponent, challenger, board_id);
            lemma_pair_insert(
                self.challenges@.insert(pair_key(opponent, challenger), board_id),
                challenger,
                opponent,
                board_id,
            );
            lemma_challenge_keeps_wf(self@, challenger, opponent, board_id);
        }
        self.boards.push(board);
        self.board_ids.push(board_id);
        self.challenges.insert(key_of(opponent, challenger), board_id);
        self.challenges.insert(key_of(challenger, opponent), board_id);
        self.events.push(Event::ChallengeReceived(opponent, challenger));
        self.events.push(Event::GameCreated(board_id));
        Ok(())
    }

    /// `challenged` accepts the challenge of `challenger`. The match gets an
    /// empty grid and becomes active, and both accounts have played one
    /// match more. The challenger cannot accept, and no challenge is
    /// accepted twice. A refused acceptance changes nothing.
    pub fn accept_challenge(&mut self, challenged: u64, challenger: u64) -> (accepted: Result<
        (),
        Error,
    >)
        requires
            old(self).wf(),
            old(self)@.card(challenged).played < u64::MAX,
            old(self)@.card(challenger).played < u64::MAX,
        ensures
            final(self).wf(),
            accepted == match old(self)@.accept_refusal(challenged, challenger) {
                Some(e) => Err::<(), Error>(e),
                None => Ok::<(), Error>(()),
            },
            final(self)@ == old(self)@.after_accept(challenged, challenger),
            accepted is Ok ==> final(self)@.card(challenged).played == old(self)@.card(
                challenged,
            ).played + 1 && final(self)@.card(challenger).played == old(self)@.card(
                challenger,
            ).played + 1,
    {
        if challenged == challenger {
            return Err(Error::CannotPlayYourself);
        }
        let id: BoardId = match self.lookup(challenged, challenger) {
            Some(id) => id,
            None => {
                return Err(Error::ChallengeDoesNotExist);
            },
        };
        proof {
            lemma_accept_keeps_store_wf(self@, challenged, challenger);
            assert(self@.live_pair(challenged, challenger));
        }
        let at: usize = match self.find_board(id) {
            Some(at) => at,
            None => unreached(),
        };
        if self.boards[at].player_1 == challenged {
            return Err(Error::CannotAcceptYourOwnChallenge);
        }
        if self.boards[at].challenge_accepted {
            return Err(Error::ActiveGameExists);
        }
        let player_1: u64 = self.boards[at].player_1;
        let player_2: u64 = self.boards[at].player_2;
        let ghost before = self.boards@;
        self.boards[at].challenge_accepted = true;
        let _made: Result<(), GameError> = self.boards[at].create_game_board();
        proof {
            assert(self.boards@ =~= before.update(at as int, self.boards@[at as int]));
            lemma_board_update(before, at as int, self.boards@[at as int]);
        }
        let mut first: ScoreCard = self.get_scorecard(player_1);
        let mut second: ScoreCard = self.get_scorecard(player_2);
        first.record_match();
        second.record_match();
        self.scorecards.insert(player_1, first);
        self.scorecards.insert(player_2, second);
        self.events.push(Event::ChallengeAccepted(challenged, challenger));
        Ok(())
    }

    /// `player` moves against `other_player` into `column`. The pair must
    /// have a match that was accepted and is still active; the match itself
    /// refuses a move out of turn, into a column that does not exist or into
    /// a full one. A refused move changes nothing. An accepted move that
    /// ends the match settles the score cards of both players and removes
    /// the entries of the pair. The outcome after the move is returned.
    pub fn play(&mut self, player: u64, other_player: u64, column: u32) -> (moved: Result<
        WinState,
        Error,
    >)
        requires
            old(self).wf(),
            old(self)@.card(player).has_room(),
            old(self)@.card(other_player).has_room(),
        ensures
            final(self).wf(),
            moved == old(self)@.play_outcome(player, other_player, column as int),
            final(self)@ == old(self)@.after_play(player, other_player, column as int),
    {
        let id: BoardId = match self.lookup(player, other_player) {
            Some(id) => id,
            None => {
                return Err(Error::GameDoesNotExist);
            },
        };
        proof {
            lemma_play_keeps_store_wf(self@, player, other_player, column as int);
            assert(self@.live_pair(player, other_player));
        }
        let at: usize = match self.find_board(id) {
            Some(at) => at,
            None => unreached(),
        };
        if !self.boards[at].challenge_accepted {
            return Err(Error::ChallengeNotYetAccepted);
        }
        if !self.boards[at].active {
            return Err(Error::GameEnded);
        }
        let ghost before = self.boards@;
        let ghost start = self@;
        let moved: Result<WinState, GameError> = self.boards[at].play(player, column as usize);
        proof {
            assert(self.boards@ =~= before.update(at as int, self.boards@[at as int]));
            lemma_board_update(before, at as int, self.boards@[at as int]);
        }
        let outcome: WinState = match moved {
            Err(e) => {
                assert(self@.boards =~= start.boards);
                return Err(Error::from_game_error(e));
            },
            Ok(outcome) => outcome,
        };
        let player_1: u64 = self.boards[at].player_1;
        let player_2: u64 = self.boards[at].player_2;
        let mut first: ScoreCard = self.get_scorecard(player_1);
        let mut second: ScoreCard = self.get_scorecard(player_2);
        self.events.push(Event::MoveMade(player, other_player));
        match outcome {
            WinState::Player(side) => {
                match side {
                    Player::One => {
                        first.record_win(self.config.points_for_win);
                        second.record_loss(self.config.points_for_loss);
                        self.events.push(Event::GameWon(player_1, id));
                    },
                    Player::Two => {
                        first.record_loss(self.config.points_for_loss);
                        second.record_win(self.config.points_for_win);
                        self.events.push(Event::GameWon(player_2, id));
                    },
                }
                self.events.push(Event::GameEnded(id));
            },
            WinState::Draw => {
                first.record_draw(self.config.points_for_draw);
                second.record_draw(self.config.points_for_draw);
                self.events.push(Event::GameEnded(id));
                self.events.push(Event::GameDrawn(id));
            },
            WinState::Ongoing => {
                assert(self@.events =~= start.events + Store::move_events(
                    player,
                    other_player,
                    self.boards@[at as int]@,
                    outcome,
                ));
                return Ok(outcome);
            },
        }
        proof {
            lemma_pair_remove(self.challenges@, player, other_player);
            lemma_pair_remove(
                self.challenges@.remove(pair_key(player, other_player)),
                other_player,
                player,
            );
            assert(self@.events =~= start.events + Store::move_events(
                player,
                other_player,
                self.boards@[at as int]@,
                outcome,
            ));
        }
        self.challenges.remove(&key_of(player, other_player));
        self.challenges.remove(&key_of(other_player, player));
        self.scorecards.insert(player_1, first);
        self.scorecards.insert(player_2, second);
        Ok(outcome)
    }
}

/// The key under which the entry of the pair `a`, `b` is kept.
fn key_of(a: u64, b: u64) -> (key: u128)
    ensures
        key == pair_key(a, b),
{
    (a as u128) * 0x1_0000_0000_0000_0000u128 + (b as u128)
}

} // verus!
