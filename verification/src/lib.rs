//! A small word-guessing game engine: a hidden target word is compared
//! against successive guesses, each letter of a guess is classified, and a
//! session tracks the guess history, the per-letter knowledge gathered so
//! far, and the win/loss lifecycle.

pub mod letters;
pub mod session;

pub use letters::compare_vec;
pub use letters::LetterMatch;
pub use session::GameState;
pub use session::SourceExhausted;
pub use session::Wordle;
