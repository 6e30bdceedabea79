//! A two-player, wager-backed rock-paper-scissors engine: matchmaking queue,
//! commit-reveal moves, best-of-N scoring, stall claims, forfeits and a
//! ranked leaderboard, with every state transition stated and proved.
pub mod commitment;
pub mod contract;
pub mod error;
pub mod laws;
pub mod msg;
pub mod ranking;
pub mod state;
pub mod transitions;
