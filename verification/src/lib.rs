//! Verified core of a five-letter word guessing game: feedback computation,
//! keyboard tracking, hard-mode constraints, statistics, word-list parsing,
//! configuration merging and the terminal front end's state machine.

pub mod status;
pub mod text;
pub mod game_logic;
pub mod game_state;
pub mod order;
pub mod word_sets;
pub mod tui;
pub mod args;
pub mod random;
pub mod session;
pub mod round;
pub mod display;
