//! A five-letter word-guessing game: per-letter hints, word lists and the
//! guess session, with their contracts proved by Verus.
use vstd::prelude::*;

pub mod hint;
pub mod session;
pub mod text;

pub use hint::{generate_hints, Hint};
pub use session::{Outcome, Session, SetupError, NUM_GUESSES, WORD_LENGTH};
pub use text::{chars_of, contains_word, parse_word_list};

verus! {

} // verus!
