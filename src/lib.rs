//! A word-guessing puzzle engine: fixed-length guesses against a secret word,
//! with per-letter feedback, a win/loss state machine and keyboard summaries.
pub mod evaluation;
pub mod game;
pub mod keyboard;
pub mod status;
pub mod words;
