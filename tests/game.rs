use rockpaperscissors::commitment::{move_hash, to_hex};
use rockpaperscissors::contract::{handle_hand_result, Contract, DEFAULT_CLAIM_TIMEOUT};
use rockpaperscissors::error::ContractError;
use rockpaperscissors::msg::{Event, ExecuteMsg};
use rockpaperscissors::state::{get_result, Coin, GameMove, GameResult, PlayerMove, UserProfile};
use sha2::{Digest, Sha256};

fn coins(amount: u128, denom: &str) -> Vec<Coin> {
    vec![Coin { denom: denom.to_string(), amount }]
}

fn hash_of(m: GameMove, nonce: &str) -> String {
    format!("{:x}", Sha256::digest(format!("{}{}", m.to_string(), nonce).as_bytes()))
}

fn play_hand(game: &mut Contract, player1: &str, player2: &str, bet_amount: u128) {
    let p1 = player1.to_string();
    let p2 = player2.to_string();
    let join = || ExecuteMsg::JoinGame { num_hands_to_win: 1 };
    game.execute(0, p1.clone(), coins(bet_amount, "token"), join()).unwrap();
    game.execute(0, p2.clone(), coins(bet_amount, "token"), join()).unwrap();
    game.execute(
        1,
        p1.clone(),
        coins(0, "token"),
        ExecuteMsg::CommitMove {
            player1: p1.clone(),
            player2: p2.clone(),
            hashed_move: hash_of(GameMove::Rock, "1"),
        },
    )
    .unwrap();
    game.execute(
        2,
        p2.clone(),
        coins(0, "token"),
        ExecuteMsg::CommitMove {
            player1: p1.clone(),
            player2: p2.clone(),
            hashed_move: hash_of(GameMove::Paper, "1"),
        },
    )
    .unwrap();
    game.execute(
        3,
        p1.clone(),
        coins(0, "token"),
        ExecuteMsg::RevealMove {
            player1: p1.clone(),
            player2: p2.clone(),
            game_move: GameMove::Rock,
            nonce: String::from("1"),
        },
    )
    .unwrap();
    game.execute(
        4,
        p2.clone(),
        coins(0, "token"),
        ExecuteMsg::RevealMove {
            player1: p1.clone(),
            player2: p2.clone(),
            game_move: GameMove::Paper,
            nonce: String::from("1"),
        },
    )
    .unwrap();
}

fn profile(game: &Contract, who: &str) -> Option<UserProfile> {
    game.leaderboard().iter().find(|p| p.address == who).cloned()
}

/// A match of player "a" (player one) against "b", both having committed.
fn started(bet: u128, hands: u8) -> Contract {
    let mut game = Contract::new(DEFAULT_CLAIM_TIMEOUT);
    game.try_join_game(0, "a".to_string(), coins(bet, "token"), hands).unwrap();
    game.try_join_game(0, "b".to_string(), coins(bet, "token"), hands).unwrap();
    game
}

#[test]
fn test_leaderboard() {
    let mut game = Contract::new(DEFAULT_CLAIM_TIMEOUT);
    play_hand(&mut game, "player1", "player2", 5);
    play_hand(&mut game, "player3", "player4", 3);
    let board = game.get_leaderboard(None, None).leaderboard;
    println!("Leaderboard:");
    println!("{:?}", board);
    let winnings: Vec<i32> = board.iter().map(|p| p.winnings).collect();
    assert_eq!(winnings, vec![5, 3, -3, -5]);
    assert_eq!(board[0].address, "player2");
    assert_eq!(board[1].address, "player4");
    println!("End test")
}

#[test]
fn move_hash_matches_sha256_hex() {
    let expected = hash_of(GameMove::Rock, "1");
    assert_eq!(move_hash(GameMove::Rock, "1"), expected);
    assert_eq!(move_hash(GameMove::Rock, "1"), move_hash(GameMove::Rock, "1"));
    assert_ne!(move_hash(GameMove::Rock, "1"), move_hash(GameMove::Rock, "2"));
    assert_ne!(move_hash(GameMove::Rock, "1"), move_hash(GameMove::Paper, "1"));
    assert_eq!(expected.len(), 64);
    assert_ne!(expected, "Rock1");
}

#[test]
fn hex_of_known_bytes() {
    assert_eq!(to_hex(&vec![10, 20, 30]), "0a141e");
    assert_eq!(to_hex(&vec![0, 255]), "00ff");
    assert_eq!(to_hex(&vec![]), "");
}

#[test]
fn move_names() {
    assert_eq!(GameMove::Rock.to_string(), "Rock");
    assert_eq!(GameMove::Paper.to_string(), "Paper");
    assert_eq!(GameMove::Scissors.to_string(), "Scissors");
}

#[test]
fn resolve_all_nine_pairs() {
    check_all_pairs();
}

fn check_all_pairs() {
    let (rock, paper, scissors) = (GameMove::Rock, GameMove::Paper, GameMove::Scissors);
    let (one, two, tie) = (GameResult::Player1Wins, GameResult::Player2Wins, GameResult::Tie);
    let cases = [
        (rock, rock, tie),
        (rock, paper, two),
        (rock, scissors, one),
        (paper, rock, one),
        (paper, paper, tie),
        (paper, scissors, two),
        (scissors, rock, two),
        (scissors, paper, one),
        (scissors, scissors, tie),
    ];
    for (m1, m2, expected) in cases {
        assert_eq!(get_result(m1, m2), expected);
    }
}

#[test]
fn join_queues_then_pairs() {
    let mut game = Contract::new(DEFAULT_CLAIM_TIMEOUT);
    let r = game.try_join_game(7, "a".to_string(), coins(5, "token"), 1).unwrap();
    assert_eq!(r.event, Event::Queued);
    assert!(r.messages.is_empty());
    assert_eq!(game.unmatched_players().len(), 1);
    assert!(game.game_states().is_empty());
    let r = game.try_join_game(9, "b".to_string(), coins(5, "token"), 1).unwrap();
    assert_eq!(r.event, Event::MatchFound);
    assert_eq!(game.unmatched_players().len(), 0);
    assert_eq!(game.game_states().len(), 1);
    let g = &game.game_states()[0];
    assert_eq!(g.player1, "a");
    assert_eq!(g.player2, "b");
    assert_eq!(g.bet_amount, coins(5, "token"));
    assert_eq!(g.updated_at, 9);
    assert!(g.player1_bet_deposited && g.player2_bet_deposited);
    assert_eq!(g.result, None);
    assert_eq!((g.player1_hands_won, g.player2_hands_won, g.hands_tied), (0, 0, 0));
}

#[test]
fn join_class_must_match_exactly() {
    let mut game = Contract::new(DEFAULT_CLAIM_TIMEOUT);
    let two = vec![
        Coin { denom: "x".to_string(), amount: 1 },
        Coin { denom: "y".to_string(), amount: 2 },
    ];
    let swapped = vec![
        Coin { denom: "y".to_string(), amount: 2 },
        Coin { denom: "x".to_string(), amount: 1 },
    ];
    game.try_join_game(0, "a".to_string(), two.clone(), 1).unwrap();
    assert_eq!(game.try_join_game(0, "b".to_string(), swapped, 1).unwrap().event, Event::Queued);
    assert_eq!(game.try_join_game(0, "c".to_string(), two.clone(), 2).unwrap().event, Event::Queued);
    assert_eq!(game.try_join_game(0, "d".to_string(), coins(1, "x"), 1).unwrap().event, Event::Queued);
    assert_eq!(game.unmatched_players().len(), 4);
    assert_eq!(game.try_join_game(0, "e".to_string(), two, 1).unwrap().event, Event::MatchFound);
    assert_eq!(game.game_states()[0].player1, "a");
    assert_eq!(game.unmatched_players().len(), 3);
}

#[test]
fn join_refused_for_player_in_a_match() {
    let mut game = started(5, 1);
    game.try_join_game(0, "c".to_string(), coins(2, "token"), 1).unwrap();
    let r = game.try_join_game(0, "a".to_string(), coins(2, "token"), 1);
    assert_eq!(r.unwrap_err(), ContractError::UniqueConstraint {});
    assert_eq!(game.unmatched_players().len(), 1);
    assert_eq!(game.game_states().len(), 1);
}

#[test]
fn leave_queue_refunds_wager() {
    let mut game = Contract::new(DEFAULT_CLAIM_TIMEOUT);
    game.try_join_game(0, "a".to_string(), coins(5, "token"), 1).unwrap();
    let r = game.try_leave_waiting_queue("a".to_string()).unwrap();
    assert_eq!(r.event, Event::LeftQueue);
    assert_eq!(r.messages.len(), 1);
    assert_eq!(r.messages[0].to_address, "a");
    assert_eq!(r.messages[0].amount, coins(5, "token"));
    assert!(game.unmatched_players().is_empty());
    let e = game.try_leave_waiting_queue("a".to_string()).unwrap_err();
    assert_eq!(e, ContractError::InvalidGame {});
}

#[test]
fn commit_errors() {
    let mut game = started(5, 1);
    let e = game
        .try_commit_move(1, "a".to_string(), "b".to_string(), "a".to_string(), "h".to_string())
        .unwrap_err();
    assert_eq!(e, ContractError::InvalidGame {});
    let e = game
        .try_commit_move(1, "z".to_string(), "a".to_string(), "b".to_string(), "h".to_string())
        .unwrap_err();
    assert_eq!(e, ContractError::Unauthorized {});
    game.try_commit_move(3, "b".to_string(), "a".to_string(), "b".to_string(), "h".to_string()).unwrap();
    game.try_commit_move(4, "b".to_string(), "a".to_string(), "b".to_string(), "k".to_string()).unwrap();
    let g = &game.game_states()[0];
    assert_eq!(g.player2_move, Some(PlayerMove::HashedMove("k".to_string())));
    assert_eq!(g.player1_move, None);
    assert_eq!(g.updated_at, 4);
}

#[test]
fn full_match_pays_winner_twice() {
    let mut game = started(5, 1);
    let (a, b) = ("a".to_string(), "b".to_string());
    game.try_commit_move(1, a.clone(), a.clone(), b.clone(), hash_of(GameMove::Rock, "1")).unwrap();
    game.try_commit_move(2, b.clone(), a.clone(), b.clone(), hash_of(GameMove::Paper, "1")).unwrap();
    let r = game.try_reveal_move(3, a.clone(), a.clone(), b.clone(), GameMove::Rock, "1".to_string()).unwrap();
    assert_eq!(r.event, Event::MoveRevealed);
    assert!(r.messages.is_empty());
    assert_eq!(game.game_states()[0].player1_move, Some(PlayerMove::GameMove(GameMove::Rock)));
    let r = game.try_reveal_move(4, b.clone(), a.clone(), b.clone(), GameMove::Paper, "1".to_string()).unwrap();
    assert_eq!(
        r.event,
        Event::GameWon {
            result: GameResult::Player2Wins,
            player1_move: GameMove::Rock,
            player2_move: GameMove::Paper
        }
    );
    assert_eq!(r.messages.len(), 2);
    let paid: u128 = r.messages.iter().map(|m| {
        assert_eq!(m.to_address, "b");
        m.amount[0].amount
    }).sum();
    assert_eq!(paid, 10);
    assert!(game.game_states().is_empty());
    assert_eq!(
        profile(&game, "b").unwrap(),
        UserProfile { address: "b".to_string(), num_games_played: 1, num_games_won: 1, winnings: 5 }
    );
    assert_eq!(
        profile(&game, "a").unwrap(),
        UserProfile { address: "a".to_string(), num_games_played: 1, num_games_won: 0, winnings: -5 }
    );
}

#[test]
fn reveal_with_wrong_nonce_is_refused() {
    let mut game = started(5, 1);
    let (a, b) = ("a".to_string(), "b".to_string());
    game.try_commit_move(1, a.clone(), a.clone(), b.clone(), hash_of(GameMove::Rock, "1")).unwrap();
    let before = game.game_states()[0].clone();
    let e = game.try_reveal_move(2, a.clone(), a.clone(), b.clone(), GameMove::Rock, "2".to_string()).unwrap_err();
    assert_eq!(e, ContractError::Unauthorized {});
    let e = game.try_reveal_move(2, a.clone(), a.clone(), b.clone(), GameMove::Paper, "1".to_string()).unwrap_err();
    assert_eq!(e, ContractError::Unauthorized {});
    assert_eq!(game.game_states()[0], before);
}

#[test]
fn reveal_without_commit_is_refused() {
    let mut game = started(5, 1);
    let (a, b) = ("a".to_string(), "b".to_string());
    let e = game.try_reveal_move(2, b.clone(), a.clone(), b.clone(), GameMove::Rock, "1".to_string()).unwrap_err();
    assert_eq!(e, ContractError::Unauthorized {});
    let e = game.try_reveal_move(2, "z".to_string(), a.clone(), b.clone(), GameMove::Rock, "1".to_string()).unwrap_err();
    assert_eq!(e, ContractError::Unauthorized {});
    let e = game.try_reveal_move(2, a.clone(), b.clone(), a.clone(), GameMove::Rock, "1".to_string()).unwrap_err();
    assert_eq!(e, ContractError::InvalidGame {});
}

#[test]
fn best_of_three_with_tie() {
    let mut game = started(4, 2);
    let (a, b) = ("a".to_string(), "b".to_string());
    let hand = |game: &mut Contract, m1: GameMove, m2: GameMove| {
        game.try_commit_move(1, a.clone(), a.clone(), b.clone(), hash_of(m1, "n1")).unwrap();
        game.try_commit_move(1, b.clone(), a.clone(), b.clone(), hash_of(m2, "n2")).unwrap();
        game.try_reveal_move(1, b.clone(), a.clone(), b.clone(), m2, "n2".to_string()).unwrap();
        game.try_reveal_move(1, a.clone(), a.clone(), b.clone(), m1, "n1".to_string()).unwrap()
    };
    let r = hand(&mut game, GameMove::Rock, GameMove::Rock);
    assert!(matches!(r.event, Event::HandPlayed { result: GameResult::Tie, .. }));
    assert_eq!(game.game_states()[0].hands_tied, 1);
    assert_eq!(game.game_states()[0].player1_move, None);
    assert_eq!(game.game_states()[0].player2_move, None);
    let r = hand(&mut game, GameMove::Scissors, GameMove::Paper);
    assert!(matches!(r.event, Event::HandPlayed { result: GameResult::Player1Wins, .. }));
    assert!(r.messages.is_empty());
    assert_eq!(game.game_states()[0].player1_hands_won, 1);
    let r = hand(&mut game, GameMove::Paper, GameMove::Rock);
    assert!(matches!(r.event, Event::GameWon { result: GameResult::Player1Wins, .. }));
    assert_eq!(r.messages.len(), 2);
    assert_eq!(r.messages[0].to_address, "a");
    assert_eq!(r.messages[1].amount, coins(4, "token"));
    assert!(game.game_states().is_empty());
    assert_eq!(profile(&game, "a").unwrap().winnings, 4);
}

#[test]
fn decided_match_takes_no_more_moves() {
    let mut game = started(5, 1);
    let (a, b) = ("a".to_string(), "b".to_string());
    game.try_commit_move(1, a.clone(), a.clone(), b.clone(), hash_of(GameMove::Rock, "1")).unwrap();
    game.try_commit_move(1, b.clone(), a.clone(), b.clone(), hash_of(GameMove::Scissors, "1")).unwrap();
    game.try_reveal_move(1, a.clone(), a.clone(), b.clone(), GameMove::Rock, "1".to_string()).unwrap();
    game.try_reveal_move(1, b.clone(), a.clone(), b.clone(), GameMove::Scissors, "1".to_string()).unwrap();
    let e = game.try_commit_move(2, a.clone(), a.clone(), b.clone(), "h".to_string()).unwrap_err();
    assert_eq!(e, ContractError::InvalidGame {});
    let e = game.try_reveal_move(2, a.clone(), a.clone(), b.clone(), GameMove::Rock, "1".to_string()).unwrap_err();
    assert_eq!(e, ContractError::InvalidGame {});
}

#[test]
fn claim_before_timeout_is_refused() {
    let mut game = started(5, 1);
    let (a, b) = ("a".to_string(), "b".to_string());
    game.try_commit_move(100, a.clone(), a.clone(), b.clone(), hash_of(GameMove::Rock, "1")).unwrap();
    let e = game.try_claim_game(100 + DEFAULT_CLAIM_TIMEOUT - 1, a.clone(), b.clone()).unwrap_err();
    assert_eq!(e, ContractError::Unauthorized {});
    let e = game.try_claim_game(50, a.clone(), b.clone()).unwrap_err();
    assert_eq!(e, ContractError::Unauthorized {});
    assert_eq!(game.game_states().len(), 1);
}

#[test]
fn claim_when_opponent_never_moved() {
    let mut game = started(5, 1);
    let (a, b) = ("a".to_string(), "b".to_string());
    game.try_commit_move(100, a.clone(), a.clone(), b.clone(), hash_of(GameMove::Rock, "1")).unwrap();
    let r = game.try_claim_game(100 + DEFAULT_CLAIM_TIMEOUT, a.clone(), b.clone()).unwrap();
    assert_eq!(r.event, Event::GameClaimed { result: GameResult::Player1Wins });
    assert_eq!(r.messages.len(), 2);
    assert_eq!(r.messages[0].to_address, "a");
    assert!(game.game_states().is_empty());
    assert_eq!(profile(&game, "a").unwrap().num_games_won, 1);
    assert_eq!(profile(&game, "b").unwrap().winnings, -5);
}

#[test]
fn claim_when_opponent_never_revealed() {
    let mut game = started(5, 1);
    let (a, b) = ("a".to_string(), "b".to_string());
    game.try_commit_move(1, a.clone(), a.clone(), b.clone(), hash_of(GameMove::Rock, "1")).unwrap();
    game.try_commit_move(1, b.clone(), a.clone(), b.clone(), hash_of(GameMove::Rock, "2")).unwrap();
    game.try_reveal_move(2, b.clone(), a.clone(), b.clone(), GameMove::Rock, "2".to_string()).unwrap();
    let r = game.try_claim_game(2 + DEFAULT_CLAIM_TIMEOUT, "z".to_string(), b.clone());
    assert_eq!(r.unwrap_err(), ContractError::InvalidGame {});
    let r = game.try_claim_game(2 + DEFAULT_CLAIM_TIMEOUT, a.clone(), b.clone()).unwrap();
    assert_eq!(r.event, Event::GameClaimed { result: GameResult::Player2Wins });
    assert_eq!(r.messages[1].to_address, "b");
}

#[test]
fn claim_without_a_laggard_is_refused() {
    let mut game = started(5, 1);
    let (a, b) = ("a".to_string(), "b".to_string());
    let e = game.try_claim_game(DEFAULT_CLAIM_TIMEOUT * 10, a.clone(), b.clone()).unwrap_err();
    assert_eq!(e, ContractError::Unauthorized {});
    game.try_commit_move(1, a.clone(), a.clone(), b.clone(), hash_of(GameMove::Rock, "1")).unwrap();
    game.try_commit_move(1, b.clone(), a.clone(), b.clone(), hash_of(GameMove::Rock, "2")).unwrap();
    let e = game.try_claim_game(DEFAULT_CLAIM_TIMEOUT * 10, a.clone(), b.clone()).unwrap_err();
    assert_eq!(e, ContractError::Unauthorized {});
}

#[test]
fn forfeit_pays_opponent() {
    let mut game = started(6, 3);
    let r = game.try_forfeit_game("b".to_string()).unwrap();
    assert_eq!(r.event, Event::GameForfeited { result: GameResult::Player1Wins });
    assert_eq!(r.messages.len(), 2);
    assert_eq!(r.messages[0].to_address, "a");
    assert_eq!(r.messages[0].amount, coins(6, "token"));
    assert_eq!(profile(&game, "a").unwrap().winnings, 6);
    assert_eq!(game.try_forfeit_game("b".to_string()).unwrap_err(), ContractError::InvalidGame {});

    let mut game = started(6, 3);
    let r = game.try_forfeit_game("a".to_string()).unwrap();
    assert_eq!(r.event, Event::GameForfeited { result: GameResult::Player2Wins });
    assert_eq!(r.messages[1].to_address, "b");
}

#[test]
fn large_wager_settles_and_saturates_winnings() {
    let mut game = started(3_000_000_000, 1);
    let r = game.try_forfeit_game("a".to_string()).unwrap();
    assert_eq!(r.event, Event::GameForfeited { result: GameResult::Player2Wins });
    assert_eq!(r.messages.len(), 2);
    assert_eq!(r.messages[0].amount, coins(3_000_000_000, "token"));
    assert!(game.game_states().is_empty());
    assert_eq!(profile(&game, "b").unwrap().winnings, i32::MAX);
    assert_eq!(profile(&game, "a").unwrap().winnings, i32::MIN);
    assert_eq!(profile(&game, "a").unwrap().num_games_played, 1);
}

#[test]
fn decided_game_is_not_scored_again() {
    let mut game = started(5, 1);
    let mut g = game.game_states()[0].clone();
    g.result = Some(GameResult::Player2Wins);
    let before = g.clone();
    let e = handle_hand_result(&mut g, GameMove::Rock, GameMove::Scissors).unwrap_err();
    assert_eq!(e, ContractError::InvalidGame {});
    assert_eq!(g, before);
    let mut fresh = game.game_states()[0].clone();
    let r = handle_hand_result(&mut fresh, GameMove::Rock, GameMove::Scissors).unwrap();
    assert_eq!(fresh.result, Some(GameResult::Player1Wins));
    assert_eq!(fresh.player1_hands_won, 1);
    assert_eq!(r.messages.len(), 2);
    let _ = game.try_forfeit_game("a".to_string());
}

#[test]
fn hand_counters_stop_at_their_bound() {
    let game = started(5, 0);
    let mut g = game.game_states()[0].clone();
    g.hands_tied = u8::MAX;
    g.player2_hands_won = u8::MAX;
    handle_hand_result(&mut g, GameMove::Rock, GameMove::Rock).unwrap();
    assert_eq!(g.hands_tied, u8::MAX);
    let r = handle_hand_result(&mut g, GameMove::Rock, GameMove::Paper).unwrap();
    assert_eq!(g.player2_hands_won, u8::MAX);
    assert_eq!(g.result, None);
    assert!(r.messages.is_empty());
}

#[test]
fn reveal_against_given_digest() {
    let mut game = started(5, 1);
    let (a, b) = ("a".to_string(), "b".to_string());
    game.try_commit_move(1, a.clone(), a.clone(), b.clone(), "digest".to_string()).unwrap();
    let e = game
        .reveal_committed_move(2, a.clone(), a.clone(), b.clone(), GameMove::Rock, "other".to_string())
        .unwrap_err();
    assert_eq!(e, ContractError::Unauthorized {});
    let r = game
        .reveal_committed_move(2, a.clone(), a.clone(), b.clone(), GameMove::Rock, "digest".to_string())
        .unwrap();
    assert_eq!(r.event, Event::MoveRevealed);
    assert_eq!(game.game_states()[0].player1_move, Some(PlayerMove::GameMove(GameMove::Rock)));
    assert_eq!(game.game_states()[0].updated_at, 2);
}

#[test]
fn update_leaderboard_creates_and_updates() {
    let mut game = Contract::new(DEFAULT_CLAIM_TIMEOUT);
    let (a, b) = ("a".to_string(), "b".to_string());
    game.update_leaderboard(&a, &b, GameResult::Player1Wins, &coins(7, "t"));
    game.update_leaderboard(&a, &b, GameResult::Player2Wins, &coins(2, "t"));
    assert_eq!(
        profile(&game, "a").unwrap(),
        UserProfile { address: a.clone(), num_games_played: 2, num_games_won: 1, winnings: 5 }
    );
    assert_eq!(
        profile(&game, "b").unwrap(),
        UserProfile { address: b.clone(), num_games_played: 2, num_games_won: 1, winnings: -5 }
    );
    game.update_leaderboard(&a, &b, GameResult::Player1Wins, &vec![]);
    assert_eq!(profile(&game, "a").unwrap().winnings, 5);
    assert_eq!(game.leaderboard().len(), 2);
}

#[test]
fn leaderboard_is_ordered_and_limited() {
    let mut game = Contract::new(DEFAULT_CLAIM_TIMEOUT);
    for i in 0..20u128 {
        let w = format!("w{}", i);
        let l = format!("l{}", i);
        game.update_leaderboard(&w, &l, GameResult::Player1Wins, &coins((i * 7) % 11, "t"));
    }
    let board = game.get_leaderboard(None, Some(10)).leaderboard;
    assert_eq!(board.len(), 10);
    for pair in board.windows(2) {
        assert!(pair[0].winnings >= pair[1].winnings);
    }
    assert_eq!(board[0].winnings, 10);
    assert_eq!(game.get_leaderboard(None, None).leaderboard.len(), 10);
    assert_eq!(game.get_leaderboard(None, Some(100)).leaderboard.len(), 30);
    assert_eq!(game.get_leaderboard(None, Some(0)).leaderboard.len(), 0);
    let all = game.get_leaderboard(None, Some(40)).leaderboard;
    for pair in all.windows(2) {
        assert!(pair[0].winnings >= pair[1].winnings);
    }
    let zeros: Vec<&str> = all.iter().filter(|p| p.winnings == 0).map(|p| p.address.as_str()).collect();
    assert_eq!(zeros, vec!["w0", "l0", "w11", "l11"]);
}

#[test]
fn queries_by_player_and_pages() {
    let mut game = started(5, 1);
    game.try_join_game(0, "c".to_string(), coins(9, "token"), 1).unwrap();
    let r = game.get_game_by_player("b".to_string());
    assert_eq!(r.game.unwrap().player1, "a");
    assert!(!r.waiting_for_opponent);
    let r = game.get_game_by_player("c".to_string());
    assert!(r.game.is_none());
    assert!(r.waiting_for_opponent);
    let r = game.get_game_by_player("q".to_string());
    assert!(r.game.is_none() && !r.waiting_for_opponent);
    assert!(game.get_game("a".to_string(), "b".to_string()).game.is_some());
    assert!(game.get_game("b".to_string(), "a".to_string()).game.is_none());
    assert_eq!(game.get_games(None, None).games.len(), 1);
    assert_eq!(game.get_open_games(None, None).open_games[0].address, "c");
    assert_eq!(game.get_open_games(None, Some(0)).open_games.len(), 0);
}

#[test]
fn restore_checks_invariant() {
    let game = started(5, 1);
    let games = game.game_states().clone();
    let back = Contract::restore(games.clone(), vec![], vec![], 5).unwrap();
    assert_eq!(back.game_states(), &games);
    assert_eq!(back.claim_timeout(), 5);
    let twice = vec![games[0].clone(), games[0].clone()];
    assert!(Contract::restore(twice, vec![], vec![], 5).is_none());
}
