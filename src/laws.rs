//! Properties of the game that relate several operations, or hold of all
//! inputs, proved over the steps in `transitions`.
use vstd::prelude::*;

use crate::commitment::commitment;
use crate::error::ContractError;
use crate::msg::Event;
use crate::ranking::{lemma_ranked_sorted, non_increasing, ranked};
use crate::state::{beats, resolve, CoinView, GameMove, GameResult, GameView, MoveView};
use crate::transitions::{
    claim_step, commit_step, lemma_update_game_wf, forfeit_step, game_index, in_game, index_as_player1,
    index_as_player2, join_step, new_game, page_len, plays_in, queue_index, reveal_step, same_class,
    settle, shares_player, stall_winner, timed_out, ContractView, Step,
};

verus! {

/// Hands are scored by the usual rules: identical moves tie, and otherwise
/// exactly one side wins, so that swapping the moves swaps the winner.
pub proof fn lemma_resolve_rules(m1: GameMove, m2: GameMove)
    ensures
        (resolve(m1, m2) == GameResult::Tie) == (m1 == m2),
        (resolve(m1, m2) == GameResult::Player1Wins) == beats(m1, m2),
        (resolve(m1, m2) == GameResult::Player1Wins) == (resolve(m2, m1) == GameResult::Player2Wins),
        beats(m1, m2) ==> !beats(m2, m1),
        resolve(GameMove::Rock, GameMove::Scissors) == GameResult::Player1Wins,
        resolve(GameMove::Scissors, GameMove::Paper) == GameResult::Player1Wins,
        resolve(GameMove::Paper, GameMove::Rock) == GameResult::Player1Wins,
{
}

/// A player of a match in progress has a reveal accepted exactly when
/// their slot holds the commitment of that move and nonce; otherwise it is
/// refused as unauthorized.
pub proof fn lemma_reveal_checks_commitment(
    s: ContractView,
    now: u64,
    sender: Seq<char>,
    p1: Seq<char>,
    p2: Seq<char>,
    m: GameMove,
    nonce: Seq<char>,
)
    requires
        s.wf(),
        game_index(s.games, p1, p2) is Some,
        sender == p1 || sender == p2,
    ensures
        ({
            let g = s.games[game_index(s.games, p1, p2)->Some_0];
            let own = if sender == p1 { g.player1_move } else { g.player2_move };
            let committed = Some(MoveView::HashedMove(commitment(m, nonce)));
            &&& (reveal_step(s, now, sender, p1, p2, m, nonce) is Ok) == (own == committed)
            &&& own != committed ==> reveal_step(s, now, sender, p1, p2, m, nonce) == Step::Err(
                ContractError::Unauthorized {  },
            )
        }),
{
    let i = game_index(s.games, p1, p2)->Some_0;
    assert(s.games[i].result is None);
}

/// A player who commits to a move and nonce can then reveal them: the
/// reveal is accepted.
pub proof fn lemma_commit_then_reveal(
    s: ContractView,
    t1: u64,
    t2: u64,
    sender: Seq<char>,
    p1: Seq<char>,
    p2: Seq<char>,
    m: GameMove,
    nonce: Seq<char>,
)
    requires
        s.wf(),
        game_index(s.games, p1, p2) is Some,
        sender == p1 || sender == p2,
    ensures
        match commit_step(s, t1, sender, p1, p2, commitment(m, nonce)) {
            Ok((s1, _)) => reveal_step(s1, t2, sender, p1, p2, m, nonce) is Ok,
            Err(_) => false,
        },
{
    let i = game_index(s.games, p1, p2)->Some_0;
    let g = s.games[i];
    let c = Some(MoveView::HashedMove(commitment(m, nonce)));
    let g1 = if sender == p1 {
        GameView { player1_move: c, updated_at: t1, ..g }
    } else {
        GameView { player2_move: c, updated_at: t1, ..g }
    };
    lemma_update_game_wf(s, i, g1);
    let s1 = ContractView { games: s.games.update(i, g1), ..s };
    assert(s1.games[i].player1 == p1 && s1.games[i].player2 == p2);
    let k = game_index(s1.games, p1, p2)->Some_0;
    if k != i {
        assert(!shares_player(s1.games[k], s1.games[i]));
    }
    lemma_reveal_checks_commitment(s1, t2, sender, p1, p2, m, nonce);
}

/// A match that has been idle for the timeout, with one side stalling, can
/// always be claimed; a forfeit by a player in a match always succeeds.
pub proof fn lemma_stalls_always_resolve(s: ContractView, now: u64, p1: Seq<char>, p2: Seq<char>, who: Seq<char>)
    requires
        s.wf(),
    ensures
        match game_index(s.games, p1, p2) {
            Some(i) => (timed_out(s.games[i], s.claim_timeout, now) && stall_winner(
                s.games[i].player1_move,
                s.games[i].player2_move,
            ) is Some) == (claim_step(s, now, p1, p2) is Ok),
            None => claim_step(s, now, p1, p2) == Step::Err(ContractError::InvalidGame {  }),
        },
        (forfeit_step(s, who) is Ok) == in_game(s.games, who),
{
    if in_game(s.games, who) {
        let k = choose|k: int| 0 <= k < s.games.len() && plays_in(#[trigger] s.games[k], who);
        if s.games[k].player1 == who {
            assert(index_as_player1(s.games, who) is Some);
        } else {
            assert(index_as_player2(s.games, who) is Some);
        }
    } else {
        if index_as_player1(s.games, who) is Some {
            let k = index_as_player1(s.games, who)->Some_0;
            assert(plays_in(s.games[k], who));
        }
        if index_as_player2(s.games, who) is Some {
            let k = index_as_player2(s.games, who)->Some_0;
            assert(plays_in(s.games[k], who));
        }
    }
}

/// Joining with a class that nobody waits with leaves exactly one entry of
/// that class in the queue; a second player who joins with the same class
/// is paired with the first: one new match between them, and no entry of
/// that class is left.
pub proof fn lemma_join_pairs(
    s: ContractView,
    first: Seq<char>,
    second: Seq<char>,
    wager: Seq<CoinView>,
    hands: u8,
    now1: u64,
    now2: u64,
)
    requires
        s.wf(),
        queue_index(s.queue, wager, hands) is None,
        !in_game(s.games, first),
        !in_game(s.games, second),
    ensures
        match join_step(s, now1, first, wager, hands) {
            Ok((s1, _)) => {
                &&& exists|i: int|
                    0 <= i < s1.queue.len() && same_class(#[trigger] s1.queue[i], wager, hands)
                        && forall|j: int|
                        0 <= j < s1.queue.len() && j != i ==> !same_class(
                            #[trigger] s1.queue[j],
                            wager,
                            hands,
                        )
                &&& match join_step(s1, now2, second, wager, hands) {
                    Ok((s2, _)) => {
                        &&& s2.games == s.games.push(new_game(first, second, wager, hands, now2))
                        &&& forall|j: int|
                            0 <= j < s2.queue.len() ==> !same_class(#[trigger] s2.queue[j], wager, hands)
                        &&& s2.queue == s.queue
                    },
                    Err(_) => false,
                }
            },
            Err(_) => false,
        },
{
    let n = s.queue.len() as int;
    let e = crate::state::UnmatchedView { address: first, bet_amount: wager, num_hands_to_win: hands };
    let q1 = s.queue.push(e);
    assert(same_class(q1[n], wager, hands));
    assert forall|j: int| 0 <= j < q1.len() && j != n implies !same_class(#[trigger] q1[j], wager, hands) by {
        assert(q1[j] == s.queue[j]);
    }
    assert(queue_index(q1, wager, hands) == Some(n));
    assert(q1.remove(n) =~= s.queue);
}

/// Once a reveal decides a match, the match is gone: every later commit or
/// reveal on that pair of players is refused as a match that does not exist.
pub proof fn lemma_decided_match_is_gone(
    s: ContractView,
    now: u64,
    sender: Seq<char>,
    p1: Seq<char>,
    p2: Seq<char>,
    m: GameMove,
    nonce: Seq<char>,
    later: u64,
    who: Seq<char>,
    hashed: Seq<char>,
    m2: GameMove,
    nonce2: Seq<char>,
)
    requires
        s.wf(),
        match reveal_step(s, now, sender, p1, p2, m, nonce) {
            Ok((_, resp)) => resp.event is GameWon,
            Err(_) => false,
        },
    ensures
        match reveal_step(s, now, sender, p1, p2, m, nonce) {
            Ok((s2, _)) => {
                &&& game_index(s2.games, p1, p2) is None
                &&& commit_step(s2, later, who, p1, p2, hashed) == Step::Err(
                    ContractError::InvalidGame {  },
                )
                &&& reveal_step(s2, later, who, p1, p2, m2, nonce2) == Step::Err(
                    ContractError::InvalidGame {  },
                )
            },
            Err(_) => true,
        },
{
    let i = game_index(s.games, p1, p2)->Some_0;
    lemma_settled_pair_gone(s, i);
}

/// Once a claim ends a match, the match is gone: every later commit or
/// reveal on that pair of players is refused as a match that does not exist.
pub proof fn lemma_claimed_match_is_gone(
    s: ContractView,
    now: u64,
    p1: Seq<char>,
    p2: Seq<char>,
    later: u64,
    who: Seq<char>,
    hashed: Seq<char>,
    m: GameMove,
    nonce: Seq<char>,
)
    requires
        s.wf(),
    ensures
        match claim_step(s, now, p1, p2) {
            Ok((s2, _)) => {
                &&& game_index(s2.games, p1, p2) is None
                &&& commit_step(s2, later, who, p1, p2, hashed) == Step::Err(
                    ContractError::InvalidGame {  },
                )
                &&& reveal_step(s2, later, who, p1, p2, m, nonce) == Step::Err(
                    ContractError::InvalidGame {  },
                )
            },
            Err(_) => true,
        },
{
    if let Some(i) = game_index(s.games, p1, p2) {
        lemma_settled_pair_gone(s, i);
    }
}

/// A player who forfeits is in no match afterwards.
pub proof fn lemma_forfeit_leaves_no_match(s: ContractView, who: Seq<char>)
    requires
        s.wf(),
    ensures
        match forfeit_step(s, who) {
            Ok((s2, _)) => !in_game(s2.games, who),
            Err(_) => true,
        },
{
    let found = match index_as_player1(s.games, who) {
        Some(i) => Some(i),
        None => index_as_player2(s.games, who),
    };
    if let Some(i) = found {
        assert(plays_in(s.games[i], who));
        let rest = s.games.remove(i);
        assert forall|k: int| 0 <= k < rest.len() implies !plays_in(#[trigger] rest[k], who) by {
            let k0 = if k < i { k } else { k + 1 };
            assert(rest[k] == s.games[k0]);
            assert(!shares_player(s.games[k0], s.games[i]));
        }
    }
}

/// Ending a match removes every match of its two players.
pub proof fn lemma_settled_pair_gone(s: ContractView, i: int)
    requires
        s.wf(),
        0 <= i < s.games.len(),
    ensures
        forall|r: GameResult|
            #![trigger settle(s, i, r)]
            game_index(settle(s, i, r).games, s.games[i].player1, s.games[i].player2) is None,
{
    let g = s.games[i];
    let rest = s.games.remove(i);
    assert forall|k: int| 0 <= k < rest.len() implies !(#[trigger] rest[k].player1 == g.player1
        && rest[k].player2 == g.player2) by {
        let k0 = if k < i { k } else { k + 1 };
        assert(rest[k] == s.games[k0]);
        assert(!shares_player(s.games[k0], s.games[i]));
    }
}

/// Every page of the leaderboard lists winnings that never rise.
pub proof fn lemma_leaderboard_ordered(s: ContractView, limit: Option<u32>)
    ensures
        non_increasing(ranked(s.profiles).take(page_len(limit, s.profiles.len() as int))),
{
    lemma_ranked_sorted(s.profiles);
}

} // verus!
