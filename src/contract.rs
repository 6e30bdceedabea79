//! The game's state and the operations on it, each proved to do exactly
//! what its step in `transitions` says.
use vstd::prelude::*;

use crate::commitment::move_hash;
use crate::error::ContractError;
use crate::msg::{
    BankSend, BankSendView, Event, ExecuteMsg, GetGameByPlayerResponse, GetGameByPlayersResponse,
    GetGamesResponse, GetLeaderboardResponse, GetOpenGamesResponse, Response, ResponseView,
};
use crate::ranking::{profiles_view, rank_profiles, ranked};
use crate::state::{
    coins_view, copy_coins, slot_view, Coin, GameMove, GameResult, GameState, GameView, PlayerMove,
    ProfileView, UnmatchedPlayer, UnmatchedView, UserProfile,
};
use crate::transitions::{
    claim_step, commit_step, finish, first_of, first_queued, forfeit_step, game_index,
    game_of_player, hand_outcome, in_game, index_as_player1, index_as_player2, is_queued,
    join_step, leaderboard_step, leave_step, lemma_first_exists, lemma_remove_entry_wf,
    lemma_remove_game_wf, lemma_update_game_wf, lemma_upsert_wf, new_game, page_len, payout_twice,
    plays_in, profile_of, queue_index, reply, reveal_step, same_class, settle, shares_player,
    reveal_digest_step, saturate_i32, saturate_u32, saturate_u8, stall_winner, upsert,
    ContractView, Step,
};

verus! {

/// The idle time after which a stalled match can be claimed, in the unit of
/// the timestamps handed to the operations (nanoseconds of block time).
pub const DEFAULT_CLAIM_TIMEOUT: u64 = 60_000;

/// The matches in progress, in the order they were made.
pub open spec fn games_view(s: Seq<GameState>) -> Seq<GameView> {
    s.map_values(|g: GameState| g@)
}

/// The queue, in the order of joining.
pub open spec fn queue_view(s: Seq<UnmatchedPlayer>) -> Seq<UnmatchedView> {
    s.map_values(|e: UnmatchedPlayer| e@)
}

/// The result of an operation agrees with its step: on success the new
/// state and the response are the step's; on failure the step fails with
/// the same error and the state is unchanged.
pub open spec fn applied(
    r: Result<Response, ContractError>,
    step: Step,
    pre: ContractView,
    post: ContractView,
) -> bool {
    match r {
        Ok(resp) => step == Step::Ok((post, resp@)),
        Err(e) => step == Step::Err(e) && post == pre,
    }
}

/// The whole state of the game: matches in progress, the queue and the
/// leaderboard.
pub struct Contract {
    games: Vec<GameState>,
    unmatched_players: Vec<UnmatchedPlayer>,
    profiles: Vec<UserProfile>,
    claim_timeout: u64,
}

impl View for Contract {
    type V = ContractView;

    closed spec fn view(&self) -> ContractView {
        ContractView {
            games: games_view(self.games@),
            queue: queue_view(self.unmatched_players@),
            profiles: profiles_view(self.profiles@),
            claim_timeout: self.claim_timeout,
        }
    }
}

/// The two lists hold the same coins in the same order.
fn same_coins(a: &Vec<Coin>, b: &Vec<Coin>) -> (r: bool)
    ensures
        r == (coins_view(a@) == coins_view(b@)),
{
    if a.len() != b.len() {
        assert(coins_view(a@).len() != coins_view(b@).len());
        return false;
    }
    let mut i: usize = 0;
    while i < a.len()
        invariant
            a@.len() == b@.len(),
            i <= a@.len(),
            forall|j: int| 0 <= j < i ==> #[trigger] a@[j]@ == b@[j]@,
        decreases a@.len() - i,
    {
        if a[i].denom != b[i].denom || a[i].amount != b[i].amount {
            assert(coins_view(a@)[i as int] != coins_view(b@)[i as int]);
            return false;
        }
        i = i + 1;
    }
    assert(coins_view(a@) =~= coins_view(b@));
    true
}

/// A response that moves no funds.
fn notice(event: Event) -> (r: Response)
    ensures
        r@ == reply(event),
{
    let r = Response { messages: Vec::new(), event };
    assert(r@.messages =~= reply(event).messages);
    r
}

/// The winner's payout: `amount`, sent twice to `to_address`.
pub fn send_double_tokens(to_address: &String, amount: &Vec<Coin>) -> (r: Vec<BankSend>)
    ensures
        r@.map_values(|m: BankSend| m@) == payout_twice(to_address@, coins_view(amount@)),
{
    let mut r: Vec<BankSend> = Vec::new();
    r.push(BankSend { to_address: to_address.clone(), amount: copy_coins(amount) });
    r.push(BankSend { to_address: to_address.clone(), amount: copy_coins(amount) });
    assert(r@.map_values(|m: BankSend| m@) =~= payout_twice(to_address@, coins_view(amount@)));
    r
}

/// `x + 1`, or `x` when that would leave the range of `u8`.
fn increment_u8(x: u8) -> (r: u8)
    ensures
        r == saturate_u8(x + 1),
{
    if x == u8::MAX {
        x
    } else {
        x + 1
    }
}

/// `x + 1`, or `x` when that would leave the range of `u32`.
fn increment_u32(x: u32) -> (r: u32)
    ensures
        r == saturate_u32(x + 1),
{
    if x == u32::MAX {
        x
    } else {
        x + 1
    }
}

/// `x`, or the nearest bound of `i32` when it lies outside.
fn saturate_winnings(x: i64) -> (r: i32)
    ensures
        r == saturate_i32(x as int),
{
    if x > 2147483647 {
        2147483647
    } else if x < -2147483648 {
        -2147483648
    } else {
        x as i32
    }
}

/// Scores a hand of `updated_game_state`, whose slots are already cleared:
/// the first move is player one's, the second player two's. A match that
/// is already decided is refused and left as it is.
pub fn handle_hand_result(
    updated_game_state: &mut GameState,
    player1_game_move: GameMove,
    player2_game_move: GameMove,
) -> (r: Result<Response, ContractError>)
    ensures
        match r {
            Ok(resp) => hand_outcome(old(updated_game_state)@, player1_game_move, player2_game_move)
                == Ok::<(GameView, ResponseView), ContractError>((final(updated_game_state)@, resp@)),
            Err(e) => hand_outcome(old(updated_game_state)@, player1_game_move, player2_game_move)
                == Err::<(GameView, ResponseView), ContractError>(e) && final(updated_game_state)@
                == old(updated_game_state)@,
        },
{
    if updated_game_state.result.is_some() {
        return Err(ContractError::InvalidGame {  });
    }
    let result = crate::state::get_result(player1_game_move, player2_game_move);
    let played = Event::HandPlayed {
        result,
        player1_move: player1_game_move,
        player2_move: player2_game_move,
    };
    let won = Event::GameWon { result, player1_move: player1_game_move, player2_move: player2_game_move };
    match result {
        GameResult::Tie => {
            updated_game_state.hands_tied = increment_u8(updated_game_state.hands_tied);
            Ok(notice(played))
        },
        GameResult::Player1Wins => {
            updated_game_state.player1_hands_won = increment_u8(updated_game_state.player1_hands_won);
            if updated_game_state.player1_hands_won == updated_game_state.num_hands_to_win {
                updated_game_state.result = Some(result);
                let messages = send_double_tokens(
                    &updated_game_state.player1,
                    &updated_game_state.bet_amount,
                );
                Ok(Response { messages, event: won })
            } else {
                Ok(notice(played))
            }
        },
        GameResult::Player2Wins => {
            updated_game_state.player2_hands_won = increment_u8(updated_game_state.player2_hands_won);
            if updated_game_state.player2_hands_won == updated_game_state.num_hands_to_win {
                updated_game_state.result = Some(result);
                let messages = send_double_tokens(
                    &updated_game_state.player2,
                    &updated_game_state.bet_amount,
                );
                Ok(Response { messages, event: won })
            } else {
                Ok(notice(played))
            }
        },
    }
}

fn page_size(limit: Option<u32>, available: usize) -> (r: usize)
    ensures
        r == page_len(limit, available as int),
{
    let want: usize = match limit {
        Some(l) => if l < 30 { l as usize } else { 30 },
        None => 10,
    };
    if want < available {
        want
    } else {
        available
    }
}

fn share_player(a: &GameState, b: &GameState) -> (r: bool)
    ensures
        r == shares_player(a@, b@),
{
    b.player1 == a.player1 || b.player2 == a.player1 || b.player1 == a.player2 || b.player2 == a.player2
}

/// Who wins a stalled match, read from the two slots of the current hand.
fn stalled_winner(a: &Option<PlayerMove>, b: &Option<PlayerMove>) -> (r: Option<GameResult>)
    ensures
        r == stall_winner(slot_view(*a), slot_view(*b)),
{
    match (a, b) {
        (Some(PlayerMove::GameMove(_)), Some(PlayerMove::HashedMove(_))) => Some(GameResult::Player1Wins),
        (Some(PlayerMove::HashedMove(_)), None) => Some(GameResult::Player1Wins),
        (Some(PlayerMove::HashedMove(_)), Some(PlayerMove::GameMove(_))) => Some(GameResult::Player2Wins),
        (None, Some(PlayerMove::HashedMove(_))) => Some(GameResult::Player2Wins),
        _ => None,
    }
}

/// Two matches of a well-formed state that share a player are the same.
proof fn lemma_one_game_per_player(s: ContractView, i: int, j: int, p: Seq<char>)
    requires
        s.wf(),
        0 <= i < s.games.len(),
        0 <= j < s.games.len(),
        plays_in(s.games[i], p),
        plays_in(s.games[j], p),
    ensures
        i == j,
{
    if i != j {
        assert(!shares_player(s.games[i], s.games[j]));
    }
}

impl Contract {
    /// An empty game whose stalled matches can be claimed after
    /// `claim_timeout`.
    pub fn new(claim_timeout: u64) -> (r: Contract)
        ensures
            r@.wf(),
            r@ == (ContractView {
                games: Seq::empty(),
                queue: Seq::empty(),
                profiles: Seq::empty(),
                claim_timeout,
            }),
    {
        let r = Contract {
            games: Vec::new(),
            unmatched_players: Vec::new(),
            profiles: Vec::new(),
            claim_timeout,
        };
        assert(r@.games =~= Seq::empty());
        assert(r@.queue =~= Seq::empty());
        assert(r@.profiles =~= Seq::empty());
        r
    }

    fn find_game(&self, p1: &String, p2: &String) -> (r: Option<usize>)
        requires
            self@.wf(),
        ensures
            match r {
                Some(i) => game_index(self@.games, p1@, p2@) == Some(i as int),
                None => game_index(self@.games, p1@, p2@) is None,
            },
    {
        let mut i: usize = 0;
        while i < self.games.len()
            invariant
                self@.wf(),
                i <= self@.games.len(),
                forall|j: int|
                    0 <= j < i ==> !(#[trigger] self@.games[j].player1 == p1@ && self@.games[j].player2
                        == p2@),
            decreases self@.games.len() - i,
        {
            if self.games[i].player1 == *p1 && self.games[i].player2 == *p2 {
                proof {
                    assert(self@.games[i as int].player1 == p1@ && self@.games[i as int].player2 == p2@);
                    let k = choose|k: int|
                        0 <= k < self@.games.len() && #[trigger] self@.games[k].player1 == p1@
                            && self@.games[k].player2 == p2@;
                    lemma_one_game_per_player(self@, i as int, k, p1@);
                }
                return Some(i);
            }
            i = i + 1;
        }
        None
    }

    fn find_as_player1(&self, p: &String) -> (r: Option<usize>)
        requires
            self@.wf(),
        ensures
            match r {
                Some(i) => index_as_player1(self@.games, p@) == Some(i as int),
                None => index_as_player1(self@.games, p@) is None,
            },
    {
        let mut i: usize = 0;
        while i < self.games.len()
            invariant
                self@.wf(),
                i <= self@.games.len(),
                forall|j: int| 0 <= j < i ==> #[trigger] self@.games[j].player1 != p@,
            decreases self@.games.len() - i,
        {
            if self.games[i].player1 == *p {
                proof {
                    assert(self@.games[i as int].player1 == p@);
                    let k = choose|k: int|
                        0 <= k < self@.games.len() && #[trigger] self@.games[k].player1 == p@;
                    lemma_one_game_per_player(self@, i as int, k, p@);
                }
                return Some(i);
            }
            i = i + 1;
        }
        None
    }

    fn find_as_player2(&self, p: &String) -> (r: Option<usize>)
        requires
            self@.wf(),
        ensures
            match r {
                Some(i) => index_as_player2(self@.games, p@) == Some(i as int),
                None => index_as_player2(self@.games, p@) is None,
            },
    {
        let mut i: usize = 0;
        while i < self.games.len()
            invariant
                self@.wf(),
                i <= self@.games.len(),
                forall|j: int| 0 <= j < i ==> #[trigger] self@.games[j].player2 != p@,
            decreases self@.games.len() - i,
        {
            if self.games[i].player2 == *p {
                proof {
                    assert(self@.games[i as int].player2 == p@);
                    let k = choose|k: int|
                        0 <= k < self@.games.len() && #[trigger] self@.games[k].player2 == p@;
                    lemma_one_game_per_player(self@, i as int, k, p@);
                }
                return Some(i);
            }
            i = i + 1;
        }
        None
    }

    fn is_playing(&self, p: &String) -> (r: bool)
        ensures
            r == in_game(self@.games, p@),
    {
        let mut i: usize = 0;
        while i < self.games.len()
            invariant
                i <= self@.games.len(),
                forall|j: int| 0 <= j < i ==> !plays_in(#[trigger] self@.games[j], p@),
            decreases self@.games.len() - i,
        {
            if self.games[i].player1 == *p || self.games[i].player2 == *p {
                assert(plays_in(self@.games[i as int], p@));
                return true;
            }
            i = i + 1;
        }
        false
    }

    fn find_class(&self, funds: &Vec<Coin>, hands: u8) -> (r: Option<usize>)
        requires
            self@.wf(),
        ensures
            match r {
                Some(i) => queue_index(self@.queue, coins_view(funds@), hands) == Some(i as int),
                None => queue_index(self@.queue, coins_view(funds@), hands) is None,
            },
    {
        let ghost w = coins_view(funds@);
        let mut i: usize = 0;
        while i < self.unmatched_players.len()
            invariant
                self@.wf(),
                w == coins_view(funds@),
                i <= self@.queue.len(),
                forall|j: int| 0 <= j < i ==> !same_class(#[trigger] self@.queue[j], w, hands),
            decreases self@.queue.len() - i,
        {
            if self.unmatched_players[i].num_hands_to_win == hands && same_coins(
                &self.unmatched_players[i].bet_amount,
                funds,
            ) {
                proof {
                    assert(same_class(self@.queue[i as int], w, hands));
                    let k = choose|k: int|
                        0 <= k < self@.queue.len() && same_class(#[trigger] self@.queue[k], w, hands);
                    if k != i {
                        assert(!same_class(self@.queue[k], self@.queue[i as int].bet_amount, self@.queue[i as int].num_hands_to_win));
                    }
                }
                return Some(i);
            }
            i = i + 1;
        }
        None
    }

    fn find_queued(&self, p: &String) -> (r: Option<usize>)
        ensures
            match r {
                Some(i) => first_queued(self@.queue, p@) == Some(i as int),
                None => first_queued(self@.queue, p@) is None,
            },
    {
        let mut i: usize = 0;
        while i < self.unmatched_players.len()
            invariant
                i <= self@.queue.len(),
                forall|j: int| 0 <= j < i ==> #[trigger] self@.queue[j].address != p@,
            decreases self@.queue.len() - i,
        {
            if self.unmatched_players[i].address == *p {
                proof {
                    assert(first_of(self@.queue, p@, i as int));
                    let k = choose|k: int| first_of(self@.queue, p@, k);
                    if k < i {
                        assert(self@.queue[k].address != p@);
                    } else if k > i {
                        assert(self@.queue[i as int].address != p@);
                    }
                }
                return Some(i);
            }
            i = i + 1;
        }
        proof {
            if exists|k: int| first_of(self@.queue, p@, k) {
                let k = choose|k: int| first_of(self@.queue, p@, k);
                assert(self@.queue[k].address != p@);
            }
        }
        None
    }

    /// Joins the queue with the funds sent as the wager: the caller is
    /// paired, as player two, with the player who waits with exactly that
    /// wager and number of hands to win, or else waits.
    pub fn try_join_game(
        &mut self,
        now: u64,
        sender: String,
        funds: Vec<Coin>,
        num_hands_to_win: u8,
    ) -> (r: Result<Response, ContractError>)
        requires
            old(self)@.wf(),
        ensures
            final(self)@.wf(),
            applied(r, join_step(old(self)@, now, sender@, coins_view(funds@), num_hands_to_win), old(self)@, final(self)@),
    {
        let ghost pre = self@;
        match self.find_class(&funds, num_hands_to_win) {
            Some(i) => {
                if self.is_playing(&self.unmatched_players[i].address) || self.is_playing(&sender) {
                    return Err(ContractError::UniqueConstraint {  });
                }
                let entry = self.unmatched_players.remove(i);
                let game = GameState {
                    player1: entry.address,
                    player2: sender,
                    player1_move: None,
                    player2_move: None,
                    player1_hands_won: 0,
                    player2_hands_won: 0,
                    hands_tied: 0,
                    bet_amount: funds,
                    player1_bet_deposited: true,
                    player2_bet_deposited: true,
                    result: None,
                    num_hands_to_win,
                    updated_at: now,
                };
                self.games.push(game);
                proof {
                    lemma_remove_entry_wf(pre, i as int);
                    let g = new_game(pre.queue[i as int].address, sender@, coins_view(funds@), num_hands_to_win, now);
                    assert(self@.queue =~= pre.queue.remove(i as int));
                    assert(self@.games =~= pre.games.push(g));
                    assert forall|a: int, b: int|
                        0 <= a < self@.games.len() && 0 <= b < self@.games.len() && a != b
                        implies !shares_player(#[trigger] self@.games[a], #[trigger] self@.games[b]) by {
                        if a == pre.games.len() {
                            assert(!plays_in(pre.games[b], g.player1));
                            assert(!plays_in(pre.games[b], g.player2));
                        } else if b == pre.games.len() {
                            assert(!plays_in(pre.games[a], g.player1));
                            assert(!plays_in(pre.games[a], g.player2));
                        } else {
                            assert(!shares_player(pre.games[a], pre.games[b]));
                        }
                    }
                }
                Ok(notice(Event::MatchFound))
            },
            None => {
                let entry = UnmatchedPlayer { address: sender, bet_amount: funds, num_hands_to_win };
                self.unmatched_players.push(entry);
                proof {
                    let e = UnmatchedView { address: sender@, bet_amount: coins_view(funds@), num_hands_to_win };
                    assert(self@.queue =~= pre.queue.push(e));
                    assert forall|a: int, b: int|
                        0 <= a < self@.queue.len() && 0 <= b < self@.queue.len() && a != b
                        implies !same_class(#[trigger] self@.queue[a], self@.queue[b].bet_amount, #[trigger] self@.queue[b].num_hands_to_win) by {
                        if a == pre.queue.len() {
                            assert(!same_class(pre.queue[b], coins_view(funds@), num_hands_to_win));
                        } else if b == pre.queue.len() {
                            assert(!same_class(pre.queue[a], coins_view(funds@), num_hands_to_win));
                        } else {
                            assert(!same_class(pre.queue[a], pre.queue[b].bet_amount, pre.queue[b].num_hands_to_win));
                        }
                    }
                }
                Ok(notice(Event::Queued))
            },
        }
    }

    /// Leaves the queue: the caller's first entry goes, and its wager is
    /// sent back to the caller.
    pub fn try_leave_waiting_queue(&mut self, sender: String) -> (r: Result<Response, ContractError>)
        requires
            old(self)@.wf(),
        ensures
            final(self)@.wf(),
            applied(r, leave_step(old(self)@, sender@), old(self)@, final(self)@),
    {
        let ghost pre = self@;
        match self.find_queued(&sender) {
            Some(i) => {
                let entry = self.unmatched_players.remove(i);
                let mut messages: Vec<BankSend> = Vec::new();
                messages.push(BankSend { to_address: sender, amount: entry.bet_amount });
                let r = Response { messages, event: Event::LeftQueue };
                proof {
                    lemma_remove_entry_wf(pre, i as int);
                    assert(self@.queue =~= pre.queue.remove(i as int));
                    assert(r@.messages =~= seq![BankSendView { to_address: sender@, amount: pre.queue[i as int].bet_amount }]);
                }
                Ok(r)
            },
            None => Err(ContractError::InvalidGame {  }),
        }
    }

    /// Stores the caller's commitment for the current hand of the match of
    /// `player1` against `player2`, replacing whatever the caller's slot
    /// held, and marks the match as active now.
    pub fn try_commit_move(
        &mut self,
        now: u64,
        sender: String,
        player1: String,
        player2: String,
        hashed_move: String,
    ) -> (r: Result<Response, ContractError>)
        requires
            old(self)@.wf(),
        ensures
            final(self)@.wf(),
            applied(r, commit_step(old(self)@, now, sender@, player1@, player2@, hashed_move@), old(self)@, final(self)@),
    {
        let ghost pre = self@;
        match self.find_game(&player1, &player2) {
            Some(i) => {
                let mut g = self.games[i].copy();
                if sender == player1 {
                    g.player1_move = Some(PlayerMove::HashedMove(hashed_move));
                } else if sender == player2 {
                    g.player2_move = Some(PlayerMove::HashedMove(hashed_move));
                } else {
                    return Err(ContractError::Unauthorized {  });
                }
                g.updated_at = now;
                let ghost gv = g@;
                self.games.set(i, g);
                proof {
                    lemma_update_game_wf(pre, i as int, gv);
                    assert(self@.games =~= pre.games.update(i as int, gv));
                }
                Ok(notice(Event::MoveCommitted))
            },
            None => Err(ContractError::InvalidGame {  }),
        }
    }

    fn profile_or_new(&self, p: &String) -> (r: UserProfile)
        requires
            self@.wf(),
        ensures
            r@ == profile_of(self@.profiles, p@),
    {
        let mut i: usize = 0;
        while i < self.profiles.len()
            invariant
                self@.wf(),
                i <= self@.profiles.len(),
                forall|j: int| 0 <= j < i ==> #[trigger] self@.profiles[j].address != p@,
            decreases self@.profiles.len() - i,
        {
            if self.profiles[i].address == *p {
                proof {
                    assert(self@.profiles[i as int].address == p@);
                    let k = choose|k: int| 0 <= k < self@.profiles.len() && #[trigger] self@.profiles[k].address == p@;
                    if k != i {
                        assert(self@.profiles[k].address != self@.profiles[i as int].address);
                    }
                }
                return self.profiles[i].copy();
            }
            i = i + 1;
        }
        UserProfile { address: p.clone(), num_games_played: 0, num_games_won: 0, winnings: 0 }
    }

    fn upsert_profile(&mut self, e: UserProfile)
        requires
            old(self)@.wf(),
        ensures
            final(self)@ == (ContractView { profiles: upsert(old(self)@.profiles, e@), ..old(self)@ }),
            final(self)@.wf(),
    {
        let ghost pre = self@;
        let ghost ev = e@;
        proof {
            lemma_upsert_wf(pre, ev);
        }
        let mut i: usize = 0;
        while i < self.profiles.len()
            invariant
                self@ == pre,
                profiles_view(self.profiles@) == pre.profiles,
                ev == e@,
                pre == old(self)@,
                pre.wf(),
                i <= pre.profiles.len(),
                forall|j: int| 0 <= j < i ==> #[trigger] pre.profiles[j].address != ev.address,
            decreases pre.profiles.len() - i,
        {
            if self.profiles[i].address == e.address {
                proof {
                    assert(pre.profiles[i as int].address == ev.address);
                    let k = choose|k: int| 0 <= k < pre.profiles.len() && #[trigger] pre.profiles[k].address == ev.address;
                    if k != i {
                        assert(pre.profiles[k].address != pre.profiles[i as int].address);
                    }
                }
                self.profiles.set(i, e);
                assert(self@.profiles =~= upsert(pre.profiles, ev));
                return;
            }
            i = i + 1;
        }
        self.profiles.push(e);
        assert(self@.profiles =~= upsert(pre.profiles, ev));
    }

    /// Records a finished match on the leaderboard: both players have
    /// played one more match; the winner (player one when `game_result`
    /// says so, else player two) has won one more and gains the wager's
    /// primary amount, which the loser loses. A player without an entry
    /// gets one. Counts and winnings stop at the bounds of their types, so
    /// recording never fails.
    pub fn update_leaderboard(
        &mut self,
        player1_addr: &String,
        player2_addr: &String,
        game_result: GameResult,
        bet_amount: &Vec<Coin>,
    )
        requires
            old(self)@.wf(),
        ensures
            final(self)@.wf(),
            final(self)@ == (ContractView {
                profiles: leaderboard_step(
                    old(self)@.profiles,
                    player1_addr@,
                    player2_addr@,
                    game_result,
                    coins_view(bet_amount@),
                ),
                ..old(self)@
            }),
    {
        let a = self.profile_or_new(player1_addr);
        let b = self.profile_or_new(player2_addr);
        let amount: u128 = if bet_amount.len() > 0 { bet_amount[0].amount } else { 0 };
        let p1_wins = game_result == GameResult::Player1Wins;
        // Any amount beyond the width of `u32` already drives the winnings
        // to a bound, so it is capped there before the arithmetic.
        let delta: i64 = if amount > 4294967296 { 4294967296 } else { amount as i64 };
        let gain_a: i64 = if p1_wins { a.winnings as i64 + delta } else { a.winnings as i64 - delta };
        let gain_b: i64 = if p1_wins { b.winnings as i64 - delta } else { b.winnings as i64 + delta };
        let a2 = UserProfile {
            address: player1_addr.clone(),
            num_games_played: increment_u32(a.num_games_played),
            num_games_won: if p1_wins { increment_u32(a.num_games_won) } else { a.num_games_won },
            winnings: saturate_winnings(gain_a),
        };
        let b2 = UserProfile {
            address: player2_addr.clone(),
            num_games_played: increment_u32(b.num_games_played),
            num_games_won: if p1_wins { b.num_games_won } else { increment_u32(b.num_games_won) },
            winnings: saturate_winnings(gain_b),
        };
        proof {
            let amt = amount as int;
            assert(a2@.winnings == saturate_i32(a@.winnings + if p1_wins { amt } else { -amt }));
            assert(b2@.winnings == saturate_i32(b@.winnings + if p1_wins { -amt } else { amt }));
        }
        self.upsert_profile(a2);
        self.upsert_profile(b2);
    }

    /// Ends the match at position `i` with `result`: the leaderboard records
    /// it and it leaves the matches in progress.
    fn end_game(&mut self, i: usize, result: GameResult)
        requires
            old(self)@.wf(),
            i < old(self)@.games.len(),
        ensures
            final(self)@.wf(),
            final(self)@ == settle(old(self)@, i as int, result),
    {
        let ghost pre = self@;
        let p1 = self.games[i].player1.clone();
        let p2 = self.games[i].player2.clone();
        let bet = copy_coins(&self.games[i].bet_amount);
        self.update_leaderboard(&p1, &p2, result, &bet);
        let ghost mid = self@;
        self.games.remove(i);
        proof {
            lemma_remove_game_wf(mid, i as int);
            assert(self@.games =~= pre.games.remove(i as int));
        }
    }

    /// Ends the match at position `i` with `result` and pays its winner.
    fn finish_game(&mut self, i: usize, result: GameResult, event: Event) -> (r: Response)
        requires
            old(self)@.wf(),
            i < old(self)@.games.len(),
        ensures
            final(self)@.wf(),
            finish(old(self)@, i as int, result, event) == Step::Ok((final(self)@, r@)),
    {
        let winner = if result == GameResult::Player1Wins {
            self.games[i].player1.clone()
        } else {
            self.games[i].player2.clone()
        };
        let bet = copy_coins(&self.games[i].bet_amount);
        self.end_game(i, result);
        let messages = send_double_tokens(&winner, &bet);
        Response { messages, event }
    }

    /// Opens the caller's commitment in the match of `player1` against
    /// `player2`: the caller's slot must hold the commitment of `game_move`
    /// and `nonce`. Once both moves are revealed the slots are cleared and
    /// the hand is scored; a hand that decides the match ends it, records it
    /// on the leaderboard and pays the winner.
    pub fn try_reveal_move(
        &mut self,
        now: u64,
        sender: String,
        player1: String,
        player2: String,
        game_move: GameMove,
        nonce: String,
    ) -> (r: Result<Response, ContractError>)
        requires
            old(self)@.wf(),
        ensures
            final(self)@.wf(),
            applied(
                r,
                reveal_step(old(self)@, now, sender@, player1@, player2@, game_move, nonce@),
                old(self)@,
                final(self)@,
            ),
    {
        let digest = move_hash(game_move, nonce.as_str());
        self.reveal_committed_move(now, sender, player1, player2, game_move, digest)
    }

    /// Opens the caller's commitment in the match of `player1` against
    /// `player2`, given the digest that the move and nonce hash to: the
    /// caller's slot must hold exactly `digest`. Once both moves are
    /// revealed the slots are cleared and the hand is scored; a hand that
    /// decides the match ends it, records it on the leaderboard and pays the
    /// winner.
    pub fn reveal_committed_move(
        &mut self,
        now: u64,
        sender: String,
        player1: String,
        player2: String,
        game_move: GameMove,
        digest: String,
    ) -> (r: Result<Response, ContractError>)
        requires
            old(self)@.wf(),
        ensures
            final(self)@.wf(),
            applied(
                r,
                reveal_digest_step(old(self)@, now, sender@, player1@, player2@, game_move, digest@),
                old(self)@,
                final(self)@,
            ),
    {
        let ghost pre = self@;
        let i = match self.find_game(&player1, &player2) {
            Some(i) => i,
            None => {
                return Err(ContractError::InvalidGame {  });
            },
        };
        let is_player1 = sender == player1;
        if !is_player1 && sender != player2 {
            return Err(ContractError::Unauthorized {  });
        }
        let own = if is_player1 {
            &self.games[i].player1_move
        } else {
            &self.games[i].player2_move
        };
        let matches_commitment = match own {
            Some(PlayerMove::HashedMove(h)) => *h == digest,
            _ => false,
        };
        if !matches_commitment {
            return Err(ContractError::Unauthorized {  });
        }
        let opponent = if is_player1 {
            &self.games[i].player2_move
        } else {
            &self.games[i].player1_move
        };
        let opponent_move = match opponent {
            Some(PlayerMove::GameMove(m)) => Some(*m),
            _ => None,
        };
        let mut g = self.games[i].copy();
        g.updated_at = now;
        match opponent_move {
            Some(m) => {
                g.player1_move = None;
                g.player2_move = None;
                let (m1, m2) = if is_player1 {
                    (game_move, m)
                } else {
                    (m, game_move)
                };
                let resp = match handle_hand_result(&mut g, m1, m2) {
                    Ok(resp) => resp,
                    Err(e) => {
                        return Err(e);
                    },
                };
                match g.result {
                    Some(result) => {
                        self.end_game(i, result);
                        Ok(resp)
                    },
                    None => {
                        let ghost gv = g@;
                        self.games.set(i, g);
                        proof {
                            lemma_update_game_wf(pre, i as int, gv);
                            assert(self@.games =~= pre.games.update(i as int, gv));
                        }
                        Ok(resp)
                    },
                }
            },
            None => {
                if is_player1 {
                    g.player1_move = Some(PlayerMove::GameMove(game_move));
                } else {
                    g.player2_move = Some(PlayerMove::GameMove(game_move));
                }
                let ghost gv = g@;
                self.games.set(i, g);
                proof {
                    lemma_update_game_wf(pre, i as int, gv);
                    assert(self@.games =~= pre.games.update(i as int, gv));
                }
                Ok(notice(Event::MoveRevealed))
            },
        }
    }

    /// Ends the match of `player1` against `player2` when it has been idle
    /// for the claim timeout and one side is stalling: the other side wins,
    /// the leaderboard records it and the winner is paid. Anyone may claim.
    pub fn try_claim_game(&mut self, now: u64, player1: String, player2: String) -> (r: Result<Response, ContractError>)
        requires
            old(self)@.wf(),
        ensures
            final(self)@.wf(),
            applied(r, claim_step(old(self)@, now, player1@, player2@), old(self)@, final(self)@),
    {
        match self.find_game(&player1, &player2) {
            Some(i) => {
                let updated_at = self.games[i].updated_at;
                if now < updated_at || now - updated_at < self.claim_timeout {
                    return Err(ContractError::Unauthorized {  });
                }
                match stalled_winner(&self.games[i].player1_move, &self.games[i].player2_move) {
                    Some(result) => Ok(self.finish_game(i, result, Event::GameClaimed { result })),
                    None => Err(ContractError::Unauthorized {  }),
                }
            },
            None => Err(ContractError::InvalidGame {  }),
        }
    }

    /// The caller gives up their match: the opponent wins, the leaderboard
    /// records it and the opponent is paid.
    pub fn try_forfeit_game(&mut self, sender: String) -> (r: Result<Response, ContractError>)
        requires
            old(self)@.wf(),
        ensures
            final(self)@.wf(),
            applied(r, forfeit_step(old(self)@, sender@), old(self)@, final(self)@),
    {
        match self.find_as_player1(&sender) {
            Some(i) => Ok(
                self.finish_game(
                    i,
                    GameResult::Player2Wins,
                    Event::GameForfeited { result: GameResult::Player2Wins },
                ),
            ),
            None => match self.find_as_player2(&sender) {
                Some(i) => Ok(
                    self.finish_game(
                        i,
                        GameResult::Player1Wins,
                        Event::GameForfeited { result: GameResult::Player1Wins },
                    ),
                ),
                None => Err(ContractError::InvalidGame {  }),
            },
        }
    }

    /// The matches in progress, oldest first.
    pub fn game_states(&self) -> (r: &Vec<GameState>)
        ensures
            games_view(r@) == self@.games,
    {
        &self.games
    }

    /// The players waiting for an opponent, oldest first.
    pub fn unmatched_players(&self) -> (r: &Vec<UnmatchedPlayer>)
        ensures
            queue_view(r@) == self@.queue,
    {
        &self.unmatched_players
    }

    /// The leaderboard entries, in the order they were created.
    pub fn leaderboard(&self) -> (r: &Vec<UserProfile>)
        ensures
            profiles_view(r@) == self@.profiles,
    {
        &self.profiles
    }

    /// The idle time after which a stalled match can be claimed.
    pub fn claim_timeout(&self) -> (r: u64)
        ensures
            r == self@.claim_timeout,
    {
        self.claim_timeout
    }

    /// The match of `player1` against `player2`, if it is in progress.
    pub fn get_game(&self, player1: String, player2: String) -> (r: GetGameByPlayersResponse)
        requires
            self@.wf(),
        ensures
            match game_index(self@.games, player1@, player2@) {
                Some(i) => r.game is Some && r.game.unwrap()@ == self@.games[i],
                None => r.game is None,
            },
    {
        match self.find_game(&player1, &player2) {
            Some(i) => GetGameByPlayersResponse { game: Some(self.games[i].copy()) },
            None => GetGameByPlayersResponse { game: None },
        }
    }

    /// The match that `player` plays in, as player one or two; when there is
    /// none, whether `player` waits in the queue.
    pub fn get_game_by_player(&self, player: String) -> (r: GetGameByPlayerResponse)
        requires
            self@.wf(),
        ensures
            match game_of_player(self@.games, player@) {
                Some(g) => r.game is Some && r.game.unwrap()@ == g && !r.waiting_for_opponent,
                None => r.game is None && r.waiting_for_opponent == is_queued(self@.queue, player@),
            },
    {
        if let Some(i) = self.find_as_player1(&player) {
            return GetGameByPlayerResponse { game: Some(self.games[i].copy()), waiting_for_opponent: false };
        }
        if let Some(i) = self.find_as_player2(&player) {
            return GetGameByPlayerResponse { game: Some(self.games[i].copy()), waiting_for_opponent: false };
        }
        let waiting = match self.find_queued(&player) {
            Some(_) => true,
            None => false,
        };
        proof {
            if is_queued(self@.queue, player@) {
                let k = choose|k: int| 0 <= k < self@.queue.len() && #[trigger] self@.queue[k].address == player@;
                lemma_first_exists(self@.queue, player@, k);
            } else if waiting {
                let k = choose|k: int| first_of(self@.queue, player@, k);
                assert(self@.queue[k].address == player@);
            }
        }
        GetGameByPlayerResponse { game: None, waiting_for_opponent: waiting }
    }

    /// The top of the leaderboard: entries by winnings, highest first,
    /// equal winnings in order of creation; at most `limit` of them (ten
    /// when none is given, thirty at most).
    pub fn get_leaderboard(&self, _start_after: Option<String>, limit: Option<u32>) -> (r: GetLeaderboardResponse)
        ensures
            profiles_view(r.leaderboard@) == ranked(self@.profiles).take(page_len(limit, self@.profiles.len() as int)),
    {
        let mut all = rank_profiles(&self.profiles);
        proof {
            crate::ranking::lemma_ranked_sorted(self@.profiles);
            assert(all@.len() == profiles_view(all@).len());
        }
        let n = page_size(limit, all.len());
        all.truncate(n);
        proof {
            assert(profiles_view(all@) =~= ranked(self@.profiles).take(n as int));
        }
        GetLeaderboardResponse { leaderboard: all }
    }

    /// The first players of the queue, at most `limit` of them (ten when
    /// none is given, thirty at most).
    pub fn get_open_games(&self, _start_after: Option<String>, limit: Option<u32>) -> (r: GetOpenGamesResponse)
        ensures
            queue_view(r.open_games@) == self@.queue.take(page_len(limit, self@.queue.len() as int)),
    {
        let n = page_size(limit, self.unmatched_players.len());
        let mut open_games: Vec<UnmatchedPlayer> = Vec::new();
        let mut i: usize = 0;
        while i < n
            invariant
                n <= self@.queue.len(),
                i <= n,
                open_games@.len() == i,
                forall|j: int| 0 <= j < i ==> #[trigger] open_games@[j]@ == self@.queue[j],
            decreases n - i,
        {
            open_games.push(self.unmatched_players[i].copy());
            i = i + 1;
        }
        assert(queue_view(open_games@) =~= self@.queue.take(n as int));
        GetOpenGamesResponse { open_games }
    }

    /// The oldest matches in progress, at most `limit` of them (ten when
    /// none is given, thirty at most).
    pub fn get_games(&self, _start_after: Option<String>, limit: Option<u32>) -> (r: GetGamesResponse)
        ensures
            games_view(r.games@) == self@.games.take(page_len(limit, self@.games.len() as int)),
    {
        let n = page_size(limit, self.games.len());
        let mut games: Vec<GameState> = Vec::new();
        let mut i: usize = 0;
        while i < n
            invariant
                n <= self@.games.len(),
                i <= n,
                games@.len() == i,
                forall|j: int| 0 <= j < i ==> #[trigger] games@[j]@ == self@.games[j],
            decreases n - i,
        {
            games.push(self.games[i].copy());
            i = i + 1;
        }
        assert(games_view(games@) =~= self@.games.take(n as int));
        GetGamesResponse { games }
    }

    /// Applies one message from `sender`, who sent `funds` with it, at time
    /// `now`.
    pub fn execute(
        &mut self,
        now: u64,
        sender: String,
        funds: Vec<Coin>,
        msg: ExecuteMsg,
    ) -> (r: Result<Response, ContractError>)
        requires
            old(self)@.wf(),
        ensures
            final(self)@.wf(),
            match msg {
                ExecuteMsg::JoinGame { num_hands_to_win } => applied(
                    r,
                    join_step(old(self)@, now, sender@, coins_view(funds@), num_hands_to_win),
                    old(self)@,
                    final(self)@,
                ),
                ExecuteMsg::LeaveWaitingQueue {  } => applied(r, leave_step(old(self)@, sender@), old(self)@, final(self)@),
                ExecuteMsg::CommitMove { player1, player2, hashed_move } => applied(
                    r,
                    commit_step(old(self)@, now, sender@, player1@, player2@, hashed_move@),
                    old(self)@,
                    final(self)@,
                ),
                ExecuteMsg::RevealMove { player1, player2, game_move, nonce } => applied(
                    r,
                    reveal_step(old(self)@, now, sender@, player1@, player2@, game_move, nonce@),
                    old(self)@,
                    final(self)@,
                ),
                ExecuteMsg::ClaimGame { player1, player2 } => applied(
                    r,
                    claim_step(old(self)@, now, player1@, player2@),
                    old(self)@,
                    final(self)@,
                ),
                ExecuteMsg::ForfeitGame {  } => applied(r, forfeit_step(old(self)@, sender@), old(self)@, final(self)@),
            },
    {
        match msg {
            ExecuteMsg::JoinGame { num_hands_to_win } => self.try_join_game(now, sender, funds, num_hands_to_win),
            ExecuteMsg::LeaveWaitingQueue {  } => self.try_leave_waiting_queue(sender),
            ExecuteMsg::CommitMove { player1, player2, hashed_move } => self.try_commit_move(
                now,
                sender,
                player1,
                player2,
                hashed_move,
            ),
            ExecuteMsg::RevealMove { player1, player2, game_move, nonce } => self.try_reveal_move(
                now,
                sender,
                player1,
                player2,
                game_move,
                nonce,
            ),
            ExecuteMsg::ClaimGame { player1, player2 } => self.try_claim_game(now, player1, player2),
            ExecuteMsg::ForfeitGame {  } => self.try_forfeit_game(sender),
        }
    }

    /// Rebuilds a state from its parts, as they were read back from
    /// storage; `None` when they break the invariant.
    pub fn restore(
        games: Vec<GameState>,
        unmatched_players: Vec<UnmatchedPlayer>,
        profiles: Vec<UserProfile>,
        claim_timeout: u64,
    ) -> (r: Option<Contract>)
        ensures
            ({
                let v = ContractView {
                    games: games_view(games@),
                    queue: queue_view(unmatched_players@),
                    profiles: profiles_view(profiles@),
                    claim_timeout,
                };
                match r {
                    Some(c) => c@ == v && v.wf(),
                    None => !v.wf(),
                }
            }),
    {
        let ghost v = ContractView {
            games: games_view(games@),
            queue: queue_view(unmatched_players@),
            profiles: profiles_view(profiles@),
            claim_timeout,
        };
        let mut i: usize = 0;
        while i < games.len()
            invariant
                v == (ContractView {
                    games: games_view(games@),
                    queue: queue_view(unmatched_players@),
                    profiles: profiles_view(profiles@),
                    claim_timeout,
                }),
                v.games == games_view(games@),
                i <= v.games.len(),
                forall|a: int, b: int| 0 <= a < b < i ==> !shares_player(#[trigger] v.games[a], #[trigger] v.games[b]),
                forall|a: int| 0 <= a < i ==> {
                    let g = #[trigger] v.games[a];
                    g.result is None && g.player1_bet_deposited && g.player2_bet_deposited
                },
            decreases v.games.len() - i,
        {
            let g = &games[i];
            if g.result.is_some() || !g.player1_bet_deposited || !g.player2_bet_deposited {
                assert(!(v.games[i as int].result is None && v.games[i as int].player1_bet_deposited
                    && v.games[i as int].player2_bet_deposited));
                assert(!v.wf());
                return None;
            }
            let mut j: usize = 0;
            while j < i
                invariant
                    v == (ContractView {
                        games: games_view(games@),
                        queue: queue_view(unmatched_players@),
                        profiles: profiles_view(profiles@),
                        claim_timeout,
                    }),
                    v.games == games_view(games@),
                    i < v.games.len(),
                    j <= i,
                    forall|a: int| 0 <= a < j ==> !shares_player(#[trigger] v.games[a], v.games[i as int]),
                decreases i - j,
            {
                if share_player(&games[j], &games[i]) {
                    assert(shares_player(v.games[j as int], v.games[i as int]));
                    assert(!v.wf());
                    return None;
                }
                j = j + 1;
            }
            i = i + 1;
        }
        let mut i: usize = 0;
        while i < unmatched_players.len()
            invariant
                v == (ContractView {
                    games: games_view(games@),
                    queue: queue_view(unmatched_players@),
                    profiles: profiles_view(profiles@),
                    claim_timeout,
                }),
                v.queue == queue_view(unmatched_players@),
                i <= v.queue.len(),
                forall|a: int, b: int| 0 <= a < b < i ==> !same_class(#[trigger] v.queue[a], v.queue[b].bet_amount, #[trigger] v.queue[b].num_hands_to_win),
            decreases v.queue.len() - i,
        {
            let mut j: usize = 0;
            while j < i
                invariant
                    v == (ContractView {
                        games: games_view(games@),
                        queue: queue_view(unmatched_players@),
                        profiles: profiles_view(profiles@),
                        claim_timeout,
                    }),
                    v.queue == queue_view(unmatched_players@),
                    i < v.queue.len(),
                    j <= i,
                    forall|a: int| 0 <= a < j ==> !same_class(#[trigger] v.queue[a], v.queue[i as int].bet_amount, v.queue[i as int].num_hands_to_win),
                decreases i - j,
            {
                if unmatched_players[j].num_hands_to_win == unmatched_players[i].num_hands_to_win
                    && same_coins(&unmatched_players[j].bet_amount, &unmatched_players[i].bet_amount) {
                    assert(same_class(v.queue[j as int], v.queue[i as int].bet_amount, v.queue[i as int].num_hands_to_win));
                    assert(!v.wf());
                    return None;
                }
                j = j + 1;
            }
            i = i + 1;
        }
        let mut i: usize = 0;
        while i < profiles.len()
            invariant
                v == (ContractView {
                    games: games_view(games@),
                    queue: queue_view(unmatched_players@),
                    profiles: profiles_view(profiles@),
                    claim_timeout,
                }),
                v.profiles == profiles_view(profiles@),
                i <= v.profiles.len(),
                forall|a: int, b: int| 0 <= a < b < i ==> #[trigger] v.profiles[a].address != #[trigger] v.profiles[b].address,
            decreases v.profiles.len() - i,
        {
            let mut j: usize = 0;
            while j < i
                invariant
                    v == (ContractView {
                        games: games_view(games@),
                        queue: queue_view(unmatched_players@),
                        profiles: profiles_view(profiles@),
                        claim_timeout,
                    }),
                    v.profiles == profiles_view(profiles@),
                    i < v.profiles.len(),
                    j <= i,
                    forall|a: int| 0 <= a < j ==> #[trigger] v.profiles[a].address != v.profiles[i as int].address,
                decreases i - j,
            {
                if profiles[j].address == profiles[i].address {
                    assert(v.profiles[j as int].address == v.profiles[i as int].address);
                    assert(!v.wf());
                    return None;
                }
                j = j + 1;
            }
            i = i + 1;
        }
        proof {
            assert forall|a: int, b: int| 0 <= a < v.games.len() && 0 <= b < v.games.len() && a != b
                implies !shares_player(#[trigger] v.games[a], #[trigger] v.games[b]) by {
                if b < a {
                    assert(!shares_player(v.games[b], v.games[a]));
                }
            }
            assert forall|a: int, b: int| 0 <= a < v.queue.len() && 0 <= b < v.queue.len() && a != b
                implies !same_class(#[trigger] v.queue[a], v.queue[b].bet_amount, #[trigger] v.queue[b].num_hands_to_win) by {
                if b < a {
                    assert(!same_class(v.queue[b], v.queue[a].bet_amount, v.queue[a].num_hands_to_win));
                }
            }
            assert forall|a: int, b: int| 0 <= a < v.profiles.len() && 0 <= b < v.profiles.len() && a != b
                implies #[trigger] v.profiles[a].address != #[trigger] v.profiles[b].address by {
                if b < a {
                    assert(v.profiles[b].address != v.profiles[a].address);
                }
            }
        }
        Some(Contract { games, unmatched_players, profiles, claim_timeout })
    }
}

} // verus!
