//! Replaying a game of tic-tac-toe against a seeded pseudo-random opponent.
//!
//! A game is recorded as its seed and the human's moves. The opponent's moves
//! are not recorded: they follow from the seed. [`verify_player_win`] reads
//! such a record, replays the game, and says whether the human won it.
//! [`Session`] plays a game live and keeps its record.

pub mod board;
pub mod decimal;
pub mod game;
pub mod replay;
pub mod rng;
pub mod session;
pub mod transcript;

pub use board::{Board, Cell};
pub use game::{get_computer_move, Game, GameState};
pub use replay::{replay, verify_player_win};
pub use rng::SimpleRNG;
pub use session::Session;
pub use transcript::{format_seed_and_moves, parse_move, parse_transcript, GameRound};
