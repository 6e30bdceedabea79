use vstd::prelude::*;

use crate::state::{coins_view, Coin, CoinView, GameMove, GameResult, GameState, UnmatchedPlayer, UserProfile};

verus! {

/// Settings of a new deployment.
#[derive(Clone, Debug, PartialEq, Eq)]
pub struct InstantiateMsg {
    pub admin: Option<String>,
}

/// The operations that change the game's state.
#[derive(Clone, Debug, PartialEq, Eq)]
pub enum ExecuteMsg {
    /// Wait for, or pair with, an opponent of the same wager.
    JoinGame { num_hands_to_win: u8 },
    /// Leave the queue and take the wager back.
    LeaveWaitingQueue {},
    /// Publish a commitment for the current hand.
    CommitMove { player1: String, player2: String, hashed_move: String },
    /// Open the commitment of the current hand.
    RevealMove { player1: String, player2: String, game_move: GameMove, nonce: String },
    /// Win a match whose opponent has stalled.
    ClaimGame { player1: String, player2: String },
    /// Give up the caller's match.
    ForfeitGame {},
}

/// The read-only queries.
#[derive(Clone, Debug, PartialEq, Eq)]
pub enum QueryMsg {
    GetGameByPlayer { player: String },
    GetGameByPlayers { player1: String, player2: String },
    GetLeaderboard { start_after: Option<String>, limit: Option<u32> },
    GetOpenGames { start_after: Option<String>, limit: Option<u32> },
    GetGames { start_after: Option<String>, limit: Option<u32> },
}

/// A transfer of funds that the host makes once the operation is applied.
#[derive(Clone, Debug, PartialEq, Eq)]
pub struct BankSend {
    pub to_address: String,
    pub amount: Vec<Coin>,
}

/// What a [`BankSend`] holds, as plain values.
pub struct BankSendView {
    pub to_address: Seq<char>,
    pub amount: Seq<CoinView>,
}

impl View for BankSend {
    type V = BankSendView;

    open spec fn view(&self) -> BankSendView {
        BankSendView { to_address: self.to_address@, amount: coins_view(self.amount@) }
    }
}

/// What an operation did.
#[derive(Clone, Copy, Debug, PartialEq, Eq, Structural)]
pub enum Event {
    /// The caller waits in the queue.
    Queued,
    /// The caller was paired with the player who waited.
    MatchFound,
    /// The caller left the queue.
    LeftQueue,
    /// The caller's commitment was stored.
    MoveCommitted,
    /// The caller's move was revealed; the opponent's is awaited.
    MoveRevealed,
    /// A hand was scored and the match goes on.
    HandPlayed { result: GameResult, player1_move: GameMove, player2_move: GameMove },
    /// A hand was scored and it decided the match.
    GameWon { result: GameResult, player1_move: GameMove, player2_move: GameMove },
    /// A stalled match was claimed.
    GameClaimed { result: GameResult },
    /// A player gave up the match.
    GameForfeited { result: GameResult },
}

/// The transfers that an operation asks for, and what it did.
#[derive(Clone, Debug, PartialEq, Eq)]
pub struct Response {
    pub messages: Vec<BankSend>,
    pub event: Event,
}

/// What a [`Response`] holds, as plain values.
pub struct ResponseView {
    pub messages: Seq<BankSendView>,
    pub event: Event,
}

impl View for Response {
    type V = ResponseView;

    open spec fn view(&self) -> ResponseView {
        ResponseView { messages: self.messages@.map_values(|m: BankSend| m@), event: self.event }
    }
}

/// The match that a player is in, or whether the player waits in the queue.
#[derive(Clone, Debug, PartialEq, Eq)]
pub struct GetGameByPlayerResponse {
    pub game: Option<GameState>,
    pub waiting_for_opponent: bool,
}

/// The match between two players, if any.
#[derive(Clone, Debug, PartialEq, Eq)]
pub struct GetGameByPlayersResponse {
    pub game: Option<GameState>,
}

/// A page of the matches in progress.
#[derive(Clone, Debug, PartialEq, Eq)]
pub struct GetGamesResponse {
    pub games: Vec<GameState>,
}

/// The top of the leaderboard.
#[derive(Clone, Debug, PartialEq, Eq)]
pub struct GetLeaderboardResponse {
    pub leaderboard: Vec<UserProfile>,
}

/// A page of the queue.
#[derive(Clone, Debug, PartialEq, Eq)]
pub struct GetOpenGamesResponse {
    pub open_games: Vec<UnmatchedPlayer>,
}

} // verus!
