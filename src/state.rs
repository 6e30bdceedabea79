use vstd::prelude::*;

verus! {

/// One of the three moves of a hand.
#[derive(Clone, Copy, Debug, PartialEq, Eq, Structural)]
pub enum GameMove {
    Rock,
    Paper,
    Scissors,
}

/// The result of a hand, and of a whole match.
#[derive(Clone, Copy, Debug, PartialEq, Eq, Structural)]
pub enum GameResult {
    Player1Wins,
    Player2Wins,
    Tie,
}

/// `a` beats `b` under the usual rules: rock blunts scissors, scissors cut
/// paper, paper covers rock.
pub open spec fn beats(a: GameMove, b: GameMove) -> bool {
    (a == GameMove::Rock && b == GameMove::Scissors) || (a == GameMove::Scissors && b
        == GameMove::Paper) || (a == GameMove::Paper && b == GameMove::Rock)
}

/// The result of a hand in which player one shows `m1` and player two `m2`.
pub open spec fn resolve(m1: GameMove, m2: GameMove) -> GameResult {
    if beats(m1, m2) {
        GameResult::Player1Wins
    } else if beats(m2, m1) {
        GameResult::Player2Wins
    } else {
        GameResult::Tie
    }
}

/// Scores one hand: the first argument is player one's move, the second
/// player two's.
pub fn get_result(host_move: GameMove, opp_move: GameMove) -> (r: GameResult)
    ensures
        r == resolve(host_move, opp_move),
{
    match (host_move, opp_move) {
        (GameMove::Rock, GameMove::Paper) => GameResult::Player2Wins,
        (GameMove::Paper, GameMove::Rock) => GameResult::Player1Wins,
        (GameMove::Paper, GameMove::Scissors) => GameResult::Player2Wins,
        (GameMove::Scissors, GameMove::Paper) => GameResult::Player1Wins,
        (GameMove::Scissors, GameMove::Rock) => GameResult::Player2Wins,
        (GameMove::Rock, GameMove::Scissors) => GameResult::Player1Wins,
        (GameMove::Rock, GameMove::Rock) => GameResult::Tie,
        (GameMove::Scissors, GameMove::Scissors) => GameResult::Tie,
        (GameMove::Paper, GameMove::Paper) => GameResult::Tie,
    }
}

/// The name of a move, as it is spelled in the text that a commitment hashes.
pub open spec fn move_name(m: GameMove) -> Seq<char> {
    match m {
        GameMove::Rock => seq!['R', 'o', 'c', 'k'],
        GameMove::Paper => seq!['P', 'a', 'p', 'e', 'r'],
        GameMove::Scissors => seq!['S', 'c', 'i', 's', 's', 'o', 'r', 's'],
    }
}

impl GameMove {
    /// The move's name: `Rock`, `Paper` or `Scissors`.
    pub fn to_string(&self) -> (r: String)
        ensures
            r@ == move_name(*self),
    {
        match self {
            GameMove::Rock => {
                proof {
                    reveal_strlit("Rock");
                }
                String::from_str("Rock")
            },
            GameMove::Paper => {
                proof {
                    reveal_strlit("Paper");
                }
                String::from_str("Paper")
            },
            GameMove::Scissors => {
                proof {
                    reveal_strlit("Scissors");
                }
                String::from_str("Scissors")
            },
        }
    }
}

/// An amount of one currency.
#[derive(Clone, Debug, PartialEq, Eq)]
pub struct Coin {
    pub denom: String,
    pub amount: u128,
}

/// What a [`Coin`] holds, as plain values.
pub struct CoinView {
    pub denom: Seq<char>,
    pub amount: u128,
}

impl View for Coin {
    type V = CoinView;

    open spec fn view(&self) -> CoinView {
        CoinView { denom: self.denom@, amount: self.amount }
    }
}

/// What a list of coins holds, coin by coin and in order.
pub open spec fn coins_view(v: Seq<Coin>) -> Seq<CoinView> {
    v.map_values(|c: Coin| c@)
}

impl Coin {
    /// A copy of this coin.
    pub fn copy(&self) -> (r: Coin)
        ensures
            r@ == self@,
    {
        Coin { denom: self.denom.clone(), amount: self.amount }
    }
}

/// A copy of a list of coins, in the same order.
pub fn copy_coins(v: &Vec<Coin>) -> (r: Vec<Coin>)
    ensures
        coins_view(r@) == coins_view(v@),
{
    let mut r: Vec<Coin> = Vec::new();
    let mut i: usize = 0;
    while i < v.len()
        invariant
            i <= v@.len(),
            r@.len() == i,
            forall|j: int| 0 <= j < i ==> #[trigger] r@[j]@ == v@[j]@,
        decreases v@.len() - i,
    {
        r.push(v[i].copy());
        i = i + 1;
    }
    assert(coins_view(r@) =~= coins_view(v@));
    r
}

/// A player's move in the current hand: a commitment, or the move revealed
/// against it.
#[derive(Clone, Debug, PartialEq, Eq)]
pub enum PlayerMove {
    GameMove(GameMove),
    HashedMove(String),
}

/// What a [`PlayerMove`] holds, as plain values.
pub enum MoveView {
    GameMove(GameMove),
    HashedMove(Seq<char>),
}

impl View for PlayerMove {
    type V = MoveView;

    open spec fn view(&self) -> MoveView {
        match self {
            PlayerMove::GameMove(m) => MoveView::GameMove(*m),
            PlayerMove::HashedMove(h) => MoveView::HashedMove(h@),
        }
    }
}

/// The view of a player's slot in the current hand (`None`: no move yet).
pub open spec fn slot_view(m: Option<PlayerMove>) -> Option<MoveView> {
    match m {
        Some(pm) => Some(pm@),
        None => None,
    }
}

impl PlayerMove {
    /// A copy of this move.
    pub fn copy(&self) -> (r: PlayerMove)
        ensures
            r@ == self@,
    {
        match self {
            PlayerMove::GameMove(m) => PlayerMove::GameMove(*m),
            PlayerMove::HashedMove(h) => PlayerMove::HashedMove(h.clone()),
        }
    }
}

/// A copy of a player's slot.
pub fn copy_slot(m: &Option<PlayerMove>) -> (r: Option<PlayerMove>)
    ensures
        slot_view(r) == slot_view(*m),
{
    match m {
        Some(pm) => Some(pm.copy()),
        None => None,
    }
}

/// A match in progress between two players.
#[derive(Clone, Debug, PartialEq, Eq)]
pub struct GameState {
    pub player1: String,
    pub player2: String,
    pub player1_move: Option<PlayerMove>,
    pub player2_move: Option<PlayerMove>,
    pub player1_hands_won: u8,
    pub player2_hands_won: u8,
    pub hands_tied: u8,
    pub bet_amount: Vec<Coin>,
    pub player1_bet_deposited: bool,
    pub player2_bet_deposited: bool,
    pub result: Option<GameResult>,
    pub num_hands_to_win: u8,
    pub updated_at: u64,
}

/// What a [`GameState`] holds, as plain values.
pub struct GameView {
    pub player1: Seq<char>,
    pub player2: Seq<char>,
    pub player1_move: Option<MoveView>,
    pub player2_move: Option<MoveView>,
    pub player1_hands_won: u8,
    pub player2_hands_won: u8,
    pub hands_tied: u8,
    pub bet_amount: Seq<CoinView>,
    pub player1_bet_deposited: bool,
    pub player2_bet_deposited: bool,
    pub result: Option<GameResult>,
    pub num_hands_to_win: u8,
    pub updated_at: u64,
}

impl View for GameState {
    type V = GameView;

    open spec fn view(&self) -> GameView {
        GameView {
            player1: self.player1@,
            player2: self.player2@,
            player1_move: slot_view(self.player1_move),
            player2_move: slot_view(self.player2_move),
            player1_hands_won: self.player1_hands_won,
            player2_hands_won: self.player2_hands_won,
            hands_tied: self.hands_tied,
            bet_amount: coins_view(self.bet_amount@),
            player1_bet_deposited: self.player1_bet_deposited,
            player2_bet_deposited: self.player2_bet_deposited,
            result: self.result,
            num_hands_to_win: self.num_hands_to_win,
            updated_at: self.updated_at,
        }
    }
}

impl GameState {
    /// A copy of this match.
    pub fn copy(&self) -> (r: GameState)
        ensures
            r@ == self@,
    {
        GameState {
            player1: self.player1.clone(),
            player2: self.player2.clone(),
            player1_move: copy_slot(&self.player1_move),
            player2_move: copy_slot(&self.player2_move),
            player1_hands_won: self.player1_hands_won,
            player2_hands_won: self.player2_hands_won,
            hands_tied: self.hands_tied,
            bet_amount: copy_coins(&self.bet_amount),
            player1_bet_deposited: self.player1_bet_deposited,
            player2_bet_deposited: self.player2_bet_deposited,
            result: self.result,
            num_hands_to_win: self.num_hands_to_win,
            updated_at: self.updated_at,
        }
    }
}

/// A player waiting in the queue for an opponent with the same wager.
#[derive(Clone, Debug, PartialEq, Eq)]
pub struct UnmatchedPlayer {
    pub address: String,
    pub bet_amount: Vec<Coin>,
    pub num_hands_to_win: u8,
}

/// What an [`UnmatchedPlayer`] holds, as plain values.
pub struct UnmatchedView {
    pub address: Seq<char>,
    pub bet_amount: Seq<CoinView>,
    pub num_hands_to_win: u8,
}

impl View for UnmatchedPlayer {
    type V = UnmatchedView;

    open spec fn view(&self) -> UnmatchedView {
        UnmatchedView {
            address: self.address@,
            bet_amount: coins_view(self.bet_amount@),
            num_hands_to_win: self.num_hands_to_win,
        }
    }
}

impl UnmatchedPlayer {
    /// A copy of this queue entry.
    pub fn copy(&self) -> (r: UnmatchedPlayer)
        ensures
            r@ == self@,
    {
        UnmatchedPlayer {
            address: self.address.clone(),
            bet_amount: copy_coins(&self.bet_amount),
            num_hands_to_win: self.num_hands_to_win,
        }
    }
}

/// A player's standing on the leaderboard.
#[derive(Clone, Debug, PartialEq, Eq)]
pub struct UserProfile {
    pub address: String,
    pub num_games_played: u32,
    pub num_games_won: u32,
    pub winnings: i32,
}

/// What a [`UserProfile`] holds, as plain values.
pub struct ProfileView {
    pub address: Seq<char>,
    pub num_games_played: u32,
    pub num_games_won: u32,
    pub winnings: i32,
}

impl View for UserProfile {
    type V = ProfileView;

    open spec fn view(&self) -> ProfileView {
        ProfileView {
            address: self.address@,
            num_games_played: self.num_games_played,
            num_games_won: self.num_games_won,
            winnings: self.winnings,
        }
    }
}

impl UserProfile {
    /// A copy of this profile.
    pub fn copy(&self) -> (r: UserProfile)
        ensures
            r@ == self@,
    {
        UserProfile {
            address: self.address.clone(),
            num_games_played: self.num_games_played,
            num_games_won: self.num_games_won,
            winnings: self.winnings,
        }
    }
}

} // verus!
