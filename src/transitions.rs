//! The game as a state machine over plain values: what each operation does
//! to the matches, the queue and the leaderboard, and what it answers.
use vstd::prelude::*;

use crate::commitment::commitment;
use crate::error::ContractError;
use crate::msg::{BankSendView, Event, ResponseView};
use crate::state::{
    resolve, CoinView, GameMove, GameResult, GameView, MoveView, ProfileView, UnmatchedView,
};

verus! {

/// The whole state of the game, as plain values.
pub struct ContractView {
    /// The matches in progress, oldest first.
    pub games: Seq<GameView>,
    /// The players waiting for an opponent, oldest first.
    pub queue: Seq<UnmatchedView>,
    /// One entry per player who has finished a match, in order of creation.
    pub profiles: Seq<ProfileView>,
    /// How long a match must stay untouched before it can be claimed.
    pub claim_timeout: u64,
}

/// What an operation leads to: the new state and the response, or the
/// error that refuses it.
pub type Step = Result<(ContractView, ResponseView), ContractError>;

/// Player `p` is one of the two players of `g`.
pub open spec fn plays_in(g: GameView, p: Seq<char>) -> bool {
    g.player1 == p || g.player2 == p
}

/// The two matches have a player in common.
pub open spec fn shares_player(a: GameView, b: GameView) -> bool {
    plays_in(b, a.player1) || plays_in(b, a.player2)
}

/// Player `p` is in some match in progress.
pub open spec fn in_game(games: Seq<GameView>, p: Seq<char>) -> bool {
    exists|i: int| 0 <= i < games.len() && plays_in(#[trigger] games[i], p)
}

/// The queue entry waits with exactly this wager and target: same coins, in
/// the same order, and the same number of hands to win.
pub open spec fn same_class(e: UnmatchedView, wager: Seq<CoinView>, hands: u8) -> bool {
    e.bet_amount == wager && e.num_hands_to_win == hands
}

impl ContractView {
    /// The invariant of the game's state.
    pub open spec fn wf(self) -> bool {
        &&& forall|i: int, j: int|
            0 <= i < self.games.len() && 0 <= j < self.games.len() && i != j ==> !shares_player(
                #[trigger] self.games[i],
                #[trigger] self.games[j],
            )
        &&& forall|i: int|
            0 <= i < self.games.len() ==> {
                let g = #[trigger] self.games[i];
                g.result is None && g.player1_bet_deposited && g.player2_bet_deposited
            }
        &&& forall|i: int, j: int|
            0 <= i < self.queue.len() && 0 <= j < self.queue.len() && i != j ==> !same_class(
                #[trigger] self.queue[i],
                self.queue[j].bet_amount,
                #[trigger] self.queue[j].num_hands_to_win,
            )
        &&& forall|i: int, j: int|
            0 <= i < self.profiles.len() && 0 <= j < self.profiles.len() && i != j
                ==> #[trigger] self.profiles[i].address != #[trigger] self.profiles[j].address
    }
}

/// Replacing a match by one with the same players that is still in
/// progress keeps the invariant.
pub proof fn lemma_update_game_wf(s: ContractView, i: int, g: GameView)
    requires
        s.wf(),
        0 <= i < s.games.len(),
        g.player1 == s.games[i].player1,
        g.player2 == s.games[i].player2,
        g.result is None,
        g.player1_bet_deposited,
        g.player2_bet_deposited,
    ensures
        (ContractView { games: s.games.update(i, g), ..s }).wf(),
{
    let t = ContractView { games: s.games.update(i, g), ..s };
    assert forall|a: int, b: int|
        0 <= a < t.games.len() && 0 <= b < t.games.len() && a != b implies !shares_player(
        #[trigger] t.games[a],
        #[trigger] t.games[b],
    ) by {
        assert(!shares_player(s.games[a], s.games[b]));
    }
}

/// Removing a match keeps the invariant.
pub proof fn lemma_remove_game_wf(s: ContractView, i: int)
    requires
        s.wf(),
        0 <= i < s.games.len(),
    ensures
        (ContractView { games: s.games.remove(i), ..s }).wf(),
{
    let t = ContractView { games: s.games.remove(i), ..s };
    assert forall|a: int, b: int|
        0 <= a < t.games.len() && 0 <= b < t.games.len() && a != b implies !shares_player(
        #[trigger] t.games[a],
        #[trigger] t.games[b],
    ) by {
        let a0 = if a < i { a } else { a + 1 };
        let b0 = if b < i { b } else { b + 1 };
        assert(!shares_player(s.games[a0], s.games[b0]));
    }
    assert forall|a: int| 0 <= a < t.games.len() implies #[trigger] t.games[a].result is None
        && t.games[a].player1_bet_deposited && t.games[a].player2_bet_deposited by {
        let a0 = if a < i { a } else { a + 1 };
        assert(s.games[a0] == t.games[a]);
    }
}

/// Removing a queue entry keeps the invariant.
pub proof fn lemma_remove_entry_wf(s: ContractView, i: int)
    requires
        s.wf(),
        0 <= i < s.queue.len(),
    ensures
        (ContractView { queue: s.queue.remove(i), ..s }).wf(),
{
    let t = ContractView { queue: s.queue.remove(i), ..s };
    assert forall|a: int, b: int|
        0 <= a < t.queue.len() && 0 <= b < t.queue.len() && a != b implies !same_class(
        #[trigger] t.queue[a],
        t.queue[b].bet_amount,
        #[trigger] t.queue[b].num_hands_to_win,
    ) by {
        let a0 = if a < i { a } else { a + 1 };
        let b0 = if b < i { b } else { b + 1 };
        assert(!same_class(s.queue[a0], s.queue[b0].bet_amount, s.queue[b0].num_hands_to_win));
    }
}

/// Writing an entry into the leaderboard keeps the invariant.
pub proof fn lemma_upsert_wf(s: ContractView, e: ProfileView)
    requires
        s.wf(),
    ensures
        (ContractView { profiles: upsert(s.profiles, e), ..s }).wf(),
{
    let t = ContractView { profiles: upsert(s.profiles, e), ..s };
    if exists|i: int| 0 <= i < s.profiles.len() && #[trigger] s.profiles[i].address == e.address {
        let k = choose|i: int| 0 <= i < s.profiles.len() && #[trigger] s.profiles[i].address == e.address;
        assert forall|a: int, b: int|
            0 <= a < t.profiles.len() && 0 <= b < t.profiles.len() && a != b implies #[trigger] t.profiles[a].address
            != #[trigger] t.profiles[b].address by {
            assert(s.profiles[a].address != s.profiles[b].address);
            if a == k {
                assert(s.profiles[k].address != s.profiles[b].address);
            }
            if b == k {
                assert(s.profiles[a].address != s.profiles[k].address);
            }
        }
    } else {
        assert forall|a: int, b: int|
            0 <= a < t.profiles.len() && 0 <= b < t.profiles.len() && a != b implies #[trigger] t.profiles[a].address
            != #[trigger] t.profiles[b].address by {
            if a < s.profiles.len() && b < s.profiles.len() {
                assert(s.profiles[a].address != s.profiles[b].address);
            } else if a < s.profiles.len() {
                assert(s.profiles[a].address != e.address);
            } else {
                assert(s.profiles[b].address != e.address);
            }
        }
    }
}

/// The position of the match of `p1` against `p2`, if it is in progress.
pub open spec fn game_index(games: Seq<GameView>, p1: Seq<char>, p2: Seq<char>) -> Option<int> {
    if exists|i: int| 0 <= i < games.len() && #[trigger] games[i].player1 == p1 && games[i].player2 == p2 {
        Some(choose|i: int| 0 <= i < games.len() && #[trigger] games[i].player1 == p1 && games[i].player2 == p2)
    } else {
        None
    }
}

/// The position of the match in which `p` is player one, if any.
pub open spec fn index_as_player1(games: Seq<GameView>, p: Seq<char>) -> Option<int> {
    if exists|i: int| 0 <= i < games.len() && #[trigger] games[i].player1 == p {
        Some(choose|i: int| 0 <= i < games.len() && #[trigger] games[i].player1 == p)
    } else {
        None
    }
}

/// The position of the match in which `p` is player two, if any.
pub open spec fn index_as_player2(games: Seq<GameView>, p: Seq<char>) -> Option<int> {
    if exists|i: int| 0 <= i < games.len() && #[trigger] games[i].player2 == p {
        Some(choose|i: int| 0 <= i < games.len() && #[trigger] games[i].player2 == p)
    } else {
        None
    }
}

/// The position of the queue entry of this wager class, if any.
pub open spec fn queue_index(q: Seq<UnmatchedView>, wager: Seq<CoinView>, hands: u8) -> Option<int> {
    if exists|i: int| 0 <= i < q.len() && same_class(#[trigger] q[i], wager, hands) {
        Some(choose|i: int| 0 <= i < q.len() && same_class(#[trigger] q[i], wager, hands))
    } else {
        None
    }
}

/// `i` is the first position of the queue at which `p` waits.
pub open spec fn first_of(q: Seq<UnmatchedView>, p: Seq<char>, i: int) -> bool {
    0 <= i < q.len() && q[i].address == p && forall|j: int| 0 <= j < i ==> #[trigger] q[j].address != p
}

/// A player who waits somewhere in the queue has a first position there.
pub proof fn lemma_first_exists(q: Seq<UnmatchedView>, p: Seq<char>, k: int)
    requires
        0 <= k < q.len(),
        q[k].address == p,
    ensures
        exists|m: int| first_of(q, p, m),
    decreases k,
{
    if forall|j: int| 0 <= j < k ==> #[trigger] q[j].address != p {
        assert(first_of(q, p, k));
    } else {
        let j = choose|j: int| 0 <= j < k && #[trigger] q[j].address == p;
        lemma_first_exists(q, p, j);
    }
}

/// The first position of the queue at which `p` waits, if any.
pub open spec fn first_queued(q: Seq<UnmatchedView>, p: Seq<char>) -> Option<int> {
    if exists|i: int| first_of(q, p, i) {
        Some(choose|i: int| first_of(q, p, i))
    } else {
        None
    }
}

/// A fresh match: nothing played, both wagers deposited.
pub open spec fn new_game(
    p1: Seq<char>,
    p2: Seq<char>,
    wager: Seq<CoinView>,
    hands: u8,
    now: u64,
) -> GameView {
    GameView {
        player1: p1,
        player2: p2,
        player1_move: None,
        player2_move: None,
        player1_hands_won: 0,
        player2_hands_won: 0,
        hands_tied: 0,
        bet_amount: wager,
        player1_bet_deposited: true,
        player2_bet_deposited: true,
        result: None,
        num_hands_to_win: hands,
        updated_at: now,
    }
}

/// A response that moves no funds.
pub open spec fn reply(event: Event) -> ResponseView {
    ResponseView { messages: Seq::empty(), event }
}

/// The winner's payout: the wager, sent twice. Paying the match's wager
/// twice is deliberate: a match is only ever made between two players who
/// sent exactly the same coins, so the two transfers return the winner's
/// own stake and the loser's, which together are the whole escrow.
pub open spec fn payout_twice(to: Seq<char>, amount: Seq<CoinView>) -> Seq<BankSendView> {
    let send = BankSendView { to_address: to, amount };
    seq![send, send]
}

/// The player that `result` names as the winner of `g`.
pub open spec fn winner_of(g: GameView, result: GameResult) -> Seq<char> {
    if result == GameResult::Player1Wins {
        g.player1
    } else {
        g.player2
    }
}

/// Joining with a wager class: pair with the player who waits with exactly
/// that class, or wait.
pub open spec fn join_step(
    s: ContractView,
    now: u64,
    sender: Seq<char>,
    wager: Seq<CoinView>,
    hands: u8,
) -> Result<(ContractView, ResponseView), ContractError> {
    match queue_index(s.queue, wager, hands) {
        Some(i) => {
            let p1 = s.queue[i].address;
            if in_game(s.games, p1) || in_game(s.games, sender) {
                Err(ContractError::UniqueConstraint {  })
            } else {
                Ok(
                    (
                        ContractView {
                            games: s.games.push(new_game(p1, sender, wager, hands, now)),
                            queue: s.queue.remove(i),
                            ..s
                        },
                        reply(Event::MatchFound),
                    ),
                )
            }
        },
        None => Ok(
            (
                ContractView {
                    queue: s.queue.push(
                        UnmatchedView { address: sender, bet_amount: wager, num_hands_to_win: hands },
                    ),
                    ..s
                },
                reply(Event::Queued),
            ),
        ),
    }
}

/// Leaving the queue: the caller's first entry goes and its wager is sent
/// back.
pub open spec fn leave_step(s: ContractView, sender: Seq<char>) -> Result<
    (ContractView, ResponseView),
    ContractError,
> {
    match first_queued(s.queue, sender) {
        Some(i) => Ok(
            (
                ContractView { queue: s.queue.remove(i), ..s },
                ResponseView {
                    messages: seq![BankSendView { to_address: sender, amount: s.queue[i].bet_amount }],
                    event: Event::LeftQueue,
                },
            ),
        ),
        None => Err(ContractError::InvalidGame {  }),
    }
}

/// Committing: the caller's slot of the current hand holds `hashed`,
/// whatever it held before.
pub open spec fn commit_step(
    s: ContractView,
    now: u64,
    sender: Seq<char>,
    p1: Seq<char>,
    p2: Seq<char>,
    hashed: Seq<char>,
) -> Result<(ContractView, ResponseView), ContractError> {
    match game_index(s.games, p1, p2) {
        Some(i) => {
            let g = s.games[i];
            let c = Some(MoveView::HashedMove(hashed));
            if sender == p1 {
                Ok(
                    (
                        ContractView {
                            games: s.games.update(i, GameView { player1_move: c, updated_at: now, ..g }),
                            ..s
                        },
                        reply(Event::MoveCommitted),
                    ),
                )
            } else if sender == p2 {
                Ok(
                    (
                        ContractView {
                            games: s.games.update(i, GameView { player2_move: c, updated_at: now, ..g }),
                            ..s
                        },
                        reply(Event::MoveCommitted),
                    ),
                )
            } else {
                Err(ContractError::Unauthorized {  })
            }
        },
        None => Err(ContractError::InvalidGame {  }),
    }
}

/// The amount that a finished match moves on the leaderboard: that of the
/// wager's first coin, or zero for an empty wager.
pub open spec fn primary_amount(wager: Seq<CoinView>) -> u128 {
    if wager.len() > 0 {
        wager[0].amount
    } else {
        0
    }
}

/// The leaderboard entry of `p`, or a fresh one if `p` has none.
pub open spec fn profile_of(ps: Seq<ProfileView>, p: Seq<char>) -> ProfileView {
    if exists|i: int| 0 <= i < ps.len() && #[trigger] ps[i].address == p {
        ps[choose|i: int| 0 <= i < ps.len() && #[trigger] ps[i].address == p]
    } else {
        ProfileView { address: p, num_games_played: 0, num_games_won: 0, winnings: 0 }
    }
}

/// `ps` with the entry of `e`'s player replaced by `e`, or `e` appended if
/// that player has none.
pub open spec fn upsert(ps: Seq<ProfileView>, e: ProfileView) -> Seq<ProfileView> {
    if exists|i: int| 0 <= i < ps.len() && #[trigger] ps[i].address == e.address {
        ps.update(choose|i: int| 0 <= i < ps.len() && #[trigger] ps[i].address == e.address, e)
    } else {
        ps.push(e)
    }
}

/// `x`, or the nearest bound of `u8` when it lies outside.
pub open spec fn saturate_u8(x: int) -> u8 {
    if x > u8::MAX {
        u8::MAX
    } else {
        x as u8
    }
}

/// `x`, or the nearest bound of `u32` when it lies outside.
pub open spec fn saturate_u32(x: int) -> u32 {
    if x > u32::MAX {
        u32::MAX
    } else {
        x as u32
    }
}

/// `x`, or the nearest bound of `i32` when it lies outside.
pub open spec fn saturate_i32(x: int) -> i32 {
    if x > i32::MAX {
        i32::MAX
    } else if x < i32::MIN {
        i32::MIN
    } else {
        x as i32
    }
}

/// Recording a finished match: both players have played one more match, the
/// winner (player one if `result` says so, else player two) has won one
/// more and gains the wager's primary amount, which the loser loses. Each
/// count and winnings stops at the bound of its type rather than fail, so
/// that a finished match can always be recorded and paid. The entries are
/// computed from the board as it was, and player two's is written last.
pub open spec fn leaderboard_step(
    ps: Seq<ProfileView>,
    p1: Seq<char>,
    p2: Seq<char>,
    result: GameResult,
    wager: Seq<CoinView>,
) -> Seq<ProfileView> {
    let a = profile_of(ps, p1);
    let b = profile_of(ps, p2);
    let amount = primary_amount(wager) as int;
    let p1_wins = result == GameResult::Player1Wins;
    let a2 = ProfileView {
        address: p1,
        num_games_played: saturate_u32(a.num_games_played + 1),
        num_games_won: saturate_u32(a.num_games_won + if p1_wins { 1int } else { 0int }),
        winnings: saturate_i32(a.winnings + if p1_wins { amount } else { -amount }),
    };
    let b2 = ProfileView {
        address: p2,
        num_games_played: saturate_u32(b.num_games_played + 1),
        num_games_won: saturate_u32(b.num_games_won + if p1_wins { 0int } else { 1int }),
        winnings: saturate_i32(b.winnings + if p1_wins { -amount } else { amount }),
    };
    upsert(upsert(ps, a2), b2)
}

/// Scoring a hand of `g` (whose slots are already cleared): a tie counts as
/// tied; otherwise the hand's winner scores, and when that reaches the
/// target the match is decided and the winner is paid the wager twice. The
/// counters stop at the bound of `u8`. A match that is already decided is
/// not scored again: its outcome is never changed.
pub open spec fn hand_outcome(g: GameView, m1: GameMove, m2: GameMove) -> Result<
    (GameView, ResponseView),
    ContractError,
> {
    let r = resolve(m1, m2);
    let played = Event::HandPlayed { result: r, player1_move: m1, player2_move: m2 };
    let won = ResponseView {
        messages: payout_twice(winner_of(g, r), g.bet_amount),
        event: Event::GameWon { result: r, player1_move: m1, player2_move: m2 },
    };
    let won1 = saturate_u8(g.player1_hands_won + 1);
    let won2 = saturate_u8(g.player2_hands_won + 1);
    if g.result is Some {
        Err(ContractError::InvalidGame {  })
    } else if r == GameResult::Tie {
        Ok((GameView { hands_tied: saturate_u8(g.hands_tied + 1), ..g }, reply(played)))
    } else if r == GameResult::Player1Wins {
        if won1 == g.num_hands_to_win {
            Ok((GameView { player1_hands_won: won1, result: Some(r), ..g }, won))
        } else {
            Ok((GameView { player1_hands_won: won1, ..g }, reply(played)))
        }
    } else {
        if won2 == g.num_hands_to_win {
            Ok((GameView { player2_hands_won: won2, result: Some(r), ..g }, won))
        } else {
            Ok((GameView { player2_hands_won: won2, ..g }, reply(played)))
        }
    }
}

/// Ending the match at position `i` with `result`: it leaves the matches in
/// progress and the leaderboard records it.
pub open spec fn settle(s: ContractView, i: int, result: GameResult) -> ContractView {
    let g = s.games[i];
    ContractView {
        games: s.games.remove(i),
        profiles: leaderboard_step(s.profiles, g.player1, g.player2, result, g.bet_amount),
        ..s
    }
}

/// Applying a scored hand to the match at position `i`, whose new value
/// before scoring is `g`.
pub open spec fn score_hand(s: ContractView, i: int, g: GameView, m1: GameMove, m2: GameMove) -> Step {
    match hand_outcome(g, m1, m2) {
        Ok((g2, resp)) => match g2.result {
            Some(r) => Ok((settle(s, i, r), resp)),
            None => Ok((ContractView { games: s.games.update(i, g2), ..s }, resp)),
        },
        Err(e) => Err(e),
    }
}

/// Revealing against a known commitment: the caller's slot must hold
/// `digest`; it then holds `m`, and once both players have revealed, both
/// slots are cleared and the hand is scored.
pub open spec fn reveal_digest_step(
    s: ContractView,
    now: u64,
    sender: Seq<char>,
    p1: Seq<char>,
    p2: Seq<char>,
    m: GameMove,
    digest: Seq<char>,
) -> Step {
    match game_index(s.games, p1, p2) {
        Some(i) => {
            let g = s.games[i];
            let committed = Some(MoveView::HashedMove(digest));
            let cleared = GameView { player1_move: None, player2_move: None, updated_at: now, ..g };
            if sender == p1 {
                if g.player1_move != committed {
                    Err(ContractError::Unauthorized {  })
                } else {
                    match g.player2_move {
                        Some(MoveView::GameMove(m2)) => score_hand(s, i, cleared, m, m2),
                        _ => Ok(
                            (
                                ContractView {
                                    games: s.games.update(
                                        i,
                                        GameView {
                                            player1_move: Some(MoveView::GameMove(m)),
                                            updated_at: now,
                                            ..g
                                        },
                                    ),
                                    ..s
                                },
                                reply(Event::MoveRevealed),
                            ),
                        ),
                    }
                }
            } else if sender == p2 {
                if g.player2_move != committed {
                    Err(ContractError::Unauthorized {  })
                } else {
                    match g.player1_move {
                        Some(MoveView::GameMove(m1)) => score_hand(s, i, cleared, m1, m),
                        _ => Ok(
                            (
                                ContractView {
                                    games: s.games.update(
                                        i,
                                        GameView {
                                            player2_move: Some(MoveView::GameMove(m)),
                                            updated_at: now,
                                            ..g
                                        },
                                    ),
                                    ..s
                                },
                                reply(Event::MoveRevealed),
                            ),
                        ),
                    }
                }
            } else {
                Err(ContractError::Unauthorized {  })
            }
        },
        None => Err(ContractError::InvalidGame {  }),
    }
}

/// Revealing: the caller's slot must hold the commitment of `m` and
/// `nonce`; the rest is as for a known commitment.
pub open spec fn reveal_step(
    s: ContractView,
    now: u64,
    sender: Seq<char>,
    p1: Seq<char>,
    p2: Seq<char>,
    m: GameMove,
    nonce: Seq<char>,
) -> Step {
    reveal_digest_step(s, now, sender, p1, p2, m, commitment(m, nonce))
}

/// Who wins a stalled match, from the two slots of the current hand:
/// player one when it has revealed against a commitment not yet opened, or
/// committed against no move; player two in the mirror cases; nobody
/// otherwise.
pub open spec fn stall_winner(a: Option<MoveView>, b: Option<MoveView>) -> Option<GameResult> {
    match (a, b) {
        (Some(MoveView::GameMove(_)), Some(MoveView::HashedMove(_))) => Some(GameResult::Player1Wins),
        (Some(MoveView::HashedMove(_)), None) => Some(GameResult::Player1Wins),
        (Some(MoveView::HashedMove(_)), Some(MoveView::GameMove(_))) => Some(GameResult::Player2Wins),
        (None, Some(MoveView::HashedMove(_))) => Some(GameResult::Player2Wins),
        _ => None,
    }
}

/// The match has been idle for at least the timeout at time `now`.
pub open spec fn timed_out(g: GameView, timeout: u64, now: u64) -> bool {
    g.updated_at + timeout <= now
}

/// Ending the match at position `i` with `result` and paying its winner.
/// This never fails.
pub open spec fn finish(s: ContractView, i: int, result: GameResult, event: Event) -> Step {
    let g = s.games[i];
    Ok(
        (
            settle(s, i, result),
            ResponseView { messages: payout_twice(winner_of(g, result), g.bet_amount), event },
        ),
    )
}

/// Claiming: anyone may end a match that has been idle for the timeout, in
/// favour of the player who is not stalling.
pub open spec fn claim_step(s: ContractView, now: u64, p1: Seq<char>, p2: Seq<char>) -> Result<
    (ContractView, ResponseView),
    ContractError,
> {
    match game_index(s.games, p1, p2) {
        Some(i) => {
            let g = s.games[i];
            if !timed_out(g, s.claim_timeout, now) {
                Err(ContractError::Unauthorized {  })
            } else {
                match stall_winner(g.player1_move, g.player2_move) {
                    Some(r) => finish(s, i, r, Event::GameClaimed { result: r }),
                    None => Err(ContractError::Unauthorized {  }),
                }
            }
        },
        None => Err(ContractError::InvalidGame {  }),
    }
}

/// Forfeiting: the caller's match ends in favour of the opponent.
pub open spec fn forfeit_step(s: ContractView, sender: Seq<char>) -> Result<
    (ContractView, ResponseView),
    ContractError,
> {
    match index_as_player1(s.games, sender) {
        Some(i) => finish(
            s,
            i,
            GameResult::Player2Wins,
            Event::GameForfeited { result: GameResult::Player2Wins },
        ),
        None => match index_as_player2(s.games, sender) {
            Some(i) => finish(
                s,
                i,
                GameResult::Player1Wins,
                Event::GameForfeited { result: GameResult::Player1Wins },
            ),
            None => Err(ContractError::InvalidGame {  }),
        },
    }
}

/// The number of items a listing returns: the requested limit (ten when
/// none is given, thirty at most), or fewer if there are fewer items.
pub open spec fn page_len(limit: Option<u32>, available: int) -> int {
    let want: int = match limit {
        Some(l) => if l < 30 { l as int } else { 30 },
        None => 10,
    };
    if want < available {
        want
    } else {
        available
    }
}

/// The match that `p` plays in, looked up as player one first.
pub open spec fn game_of_player(games: Seq<GameView>, p: Seq<char>) -> Option<GameView> {
    match index_as_player1(games, p) {
        Some(i) => Some(games[i]),
        None => match index_as_player2(games, p) {
            Some(i) => Some(games[i]),
            None => None,
        },
    }
}

/// Player `p` waits in the queue.
pub open spec fn is_queued(q: Seq<UnmatchedView>, p: Seq<char>) -> bool {
    exists|i: int| 0 <= i < q.len() && #[trigger] q[i].address == p
}

} // verus!
