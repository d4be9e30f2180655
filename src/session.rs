//! One game: the target, the dictionary, and the count of scored guesses.
//! Reading input and printing stay with the caller, which hands each line in
//! and acts on the outcome.
use vstd::prelude::*;
use crate::hint::{Hint, generate_hints, hints_of};
use crate::text::{all_ascii, ascii_lower, lemma_trim_commutes_with_lower, lemma_trim_keeps_ascii, chars_of, contains_word, lowercase_of, to_lowercase_str, trim_str, trimmed};

verus! {

/// Scored guesses a session allows.
pub const NUM_GUESSES: u32 = 6;

/// Letters in a word.
pub const WORD_LENGTH: usize = 5;

/// Why a session could not begin.
#[derive(Debug, Clone, Copy, PartialEq, Eq, Structural)]
pub enum SetupError {
    /// The list to pick a target from is empty.
    NoWords,
    /// The target is not a word of five characters.
    BadTarget,
}

/// What became of one line of input.
#[derive(Debug, Clone, Copy)]
pub enum Outcome {
    /// Not a word of the dictionary: nothing changed, ask again.
    Invalid,
    /// The guess was scored and counted.
    Scored([Hint; 5]),
}

/// A game in progress: the target, the dictionary of accepted guesses, how
/// many guesses were scored, and whether one matched.
pub struct Session {
    target: String,
    all_words: Vec<String>,
    used: u32,
    won: bool,
}

/// A session as plain values.
pub struct SessionView {
    pub target: Seq<char>,
    pub words: Seq<Seq<char>>,
    pub used: nat,
    pub won: bool,
}

impl SessionView {
    pub open spec fn well_formed(self) -> bool {
        &&& self.target.len() == WORD_LENGTH
        &&& self.used <= NUM_GUESSES
    }

    /// The game has ended: won, or every attempt spent.
    pub open spec fn is_over(self) -> bool {
        self.won || self.used >= NUM_GUESSES
    }

    /// A fresh session for `target` over `words`.
    pub open spec fn fresh(target: Seq<char>, words: Seq<Seq<char>>) -> SessionView {
        SessionView { target, words, used: 0, won: false }
    }
}

impl View for Session {
    type V = SessionView;

    closed spec fn view(&self) -> SessionView {
        SessionView {
            target: self.target@,
            words: self.all_words@.map_values(|w: String| w@),
            used: self.used as nat,
            won: self.won,
        }
    }
}

/// A guess is accepted when it is a five-letter word of the dictionary.
pub open spec fn is_valid_guess(words: Seq<Seq<char>>, g: Seq<char>) -> bool {
    g.len() == WORD_LENGTH && words.contains(g)
}

pub open spec fn all_correct(h: Seq<Hint>) -> bool {
    forall|i: int| 0 <= i < h.len() ==> h[i] == Hint::Correct
}

/// An input line as a guess: trimmed, then lower-cased.
pub open spec fn normalized(line: Seq<char>) -> Seq<char> {
    lowercase_of(trimmed(line))
}

/// The session after guess `g`: a valid guess is counted and may win; any
/// other leaves the session as it was.
pub open spec fn after_guess(s: SessionView, g: Seq<char>) -> SessionView {
    if is_valid_guess(s.words, g) {
        SessionView { used: s.used + 1, won: all_correct(hints_of(g, s.target)), ..s }
    } else {
        s
    }
}

/// The session after the guesses `gs`, in order.
pub open spec fn play(s: SessionView, gs: Seq<Seq<char>>) -> SessionView
    decreases gs.len(),
{
    if gs.len() == 0 {
        s
    } else {
        after_guess(play(s, gs.drop_last()), gs.last())
    }
}

/// Relies on rand's `SliceRandom::choose` with the thread-local generator:
/// `None` for an empty list, else one of its words.
#[verifier::external_body]
fn choose_word(words: &Vec<String>) -> (r: Option<String>)
    ensures
        words@.len() == 0 <==> r is None,
        r matches Some(w) ==> exists|i: int| 0 <= i < words@.len() && (#[trigger] words@[i])@ == w@,
{
    rand::seq::SliceRandom::choose(words.as_slice(), &mut rand::thread_rng()).cloned()
}

impl Session {
    pub open spec fn wf(&self) -> bool {
        self@.well_formed()
    }

    /// A session for the given target over the dictionary `all_words`.
    pub fn new(target: String, all_words: Vec<String>) -> (r: Result<Session, SetupError>)
        ensures
            target@.len() == WORD_LENGTH <==> r is Ok,
            r matches Err(e) ==> e == SetupError::BadTarget,
            r matches Ok(s) ==> s.wf() && s@ == SessionView::fresh(
                target@,
                all_words@.map_values(|w: String| w@),
            ),
    {
        if chars_of(target.as_str()).len() != WORD_LENGTH {
            return Err(SetupError::BadTarget);
        }
        Ok(Session { target, all_words, used: 0, won: false })
    }

    /// A session whose target is picked at random from `chosen_words`.
    pub fn start(chosen_words: &Vec<String>, all_words: Vec<String>) -> (r: Result<
        Session,
        SetupError,
    >)
        ensures
            chosen_words@.len() == 0 <==> r == Err::<Session, SetupError>(SetupError::NoWords),
            r == Err::<Session, SetupError>(SetupError::BadTarget) ==> exists|i: int|
                0 <= i < chosen_words@.len() && (#[trigger] chosen_words@[i])@.len()
                    != WORD_LENGTH,
            r matches Ok(s) ==> s.wf() && exists|i: int|
                0 <= i < chosen_words@.len() && s@ == SessionView::fresh(
                    (#[trigger] chosen_words@[i])@,
                    all_words@.map_values(|w: String| w@),
                ),
    {
        match choose_word(chosen_words) {
            None => Err(SetupError::NoWords),
            Some(target) => Session::new(target, all_words),
        }
    }

    /// Whether the game has ended.
    pub fn is_over(&self) -> (r: bool)
        ensures
            r == self@.is_over(),
    {
        self.won || self.used >= NUM_GUESSES
    }

    /// Whether a guess matched the target.
    pub fn has_won(&self) -> (r: bool)
        ensures
            r == self@.won,
    {
        self.won
    }

    /// Scored guesses so far.
    pub fn attempts_used(&self) -> (r: u32)
        ensures
            r == self@.used,
    {
        self.used
    }

    /// The number of the next guess, counting from one.
    pub fn guess_number(&self) -> (r: u32)
        requires
            self.wf(),
        ensures
            r == self@.used + 1,
    {
        self.used + 1
    }

    /// The word to be guessed.
    pub fn target(&self) -> (r: &String)
        ensures
            r@ == self@.target,
    {
        &self.target
    }

    /// Scores `guess`, already trimmed and lower-cased. A guess that is not
    /// a five-letter word of the dictionary is refused and not counted.
    pub fn submit_guess(&mut self, guess: &String) -> (r: Outcome)
        requires
            old(self).wf(),
            !old(self)@.is_over(),
        ensures
            final(self).wf(),
            final(self)@ == after_guess(old(self)@, guess@),
            !is_valid_guess(old(self)@.words, guess@) <==> r is Invalid,
            !is_valid_guess(old(self)@.words, guess@) ==> final(self)@ == old(self)@,
            r matches Outcome::Scored(h) ==> h@ == hints_of(guess@, old(self)@.target)
                && final(self)@.used == old(self)@.used + 1,
    {
        let ghost words = self@.words;
        let found = contains_word(&self.all_words, guess);
        let g = chars_of(guess.as_str());
        proof {
            if words.contains(guess@) {
                let i = choose|i: int| 0 <= i < words.len() && words[i] == guess@;
                assert(self.all_words@[i]@ == guess@);
            }
            if found {
                let i = choose|i: int|
                    0 <= i < self.all_words@.len() && (#[trigger] self.all_words@[i])@ == guess@;
                assert(words[i] == guess@);
            }
        }
        if !found || g.len() != WORD_LENGTH {
            return Outcome::Invalid;
        }
        let hints = generate_hints(guess.as_str(), self.target.as_str());
        let mut won = true;
        let mut i: usize = 0;
        while i < WORD_LENGTH
            invariant
                i <= WORD_LENGTH,
                hints@.len() == WORD_LENGTH,
                won == forall|j: int| 0 <= j < i ==> hints@[j] == Hint::Correct,
            decreases WORD_LENGTH - i,
        {
            won = won && hints[i] == Hint::Correct;
            i = i + 1;
        }
        self.used = self.used + 1;
        self.won = won;
        Outcome::Scored(hints)
    }

    /// Scores one line of input: trimmed, lower-cased, then as `submit_guess`.
    pub fn submit(&mut self, line: &str) -> (r: Outcome)
        requires
            old(self).wf(),
            !old(self)@.is_over(),
        ensures
            final(self).wf(),
            final(self)@ == after_guess(old(self)@, normalized(line@)),
            !is_valid_guess(old(self)@.words, normalized(line@)) <==> r is Invalid,
            !is_valid_guess(old(self)@.words, normalized(line@)) ==> final(self)@ == old(self)@,
            r matches Outcome::Scored(h) ==> h@ == hints_of(normalized(line@), old(self)@.target)
                && final(self)@.used == old(self)@.used + 1,
            all_ascii(line@) ==> normalized(line@) == ascii_lower(trimmed(line@)),
    {
        proof {
            if all_ascii(line@) {
                lemma_trim_keeps_ascii(line@);
            }
        }
        let t = trim_str(line);
        let guess = to_lowercase_str(t.as_str());
        self.submit_guess(&guess)
    }
}

/// Fresh sessions in which six valid guesses in a row miss the target end
/// after the sixth, unwon, and not before.
pub proof fn lemma_six_misses_end_session(s: SessionView, gs: Seq<Seq<char>>)
    requires
        s.well_formed(),
        s.used == 0,
        !s.won,
        gs.len() == NUM_GUESSES,
        forall|i: int|
            0 <= i < gs.len() ==> is_valid_guess(s.words, #[trigger] gs[i]) && !all_correct(
                hints_of(gs[i], s.target),
            ),
    ensures
        forall|k: int| 0 <= k < NUM_GUESSES ==> !(#[trigger] play(s, gs.take(k))).is_over(),
        play(s, gs).is_over(),
        !play(s, gs).won,
        play(s, gs).used == NUM_GUESSES,
        play(s, gs).target == s.target,
{
    assert forall|k: int| 0 <= k < NUM_GUESSES implies !(#[trigger] play(s, gs.take(k))).is_over() by {
        lemma_misses_counted(s, gs, k);
    }
    lemma_misses_counted(s, gs, NUM_GUESSES as int);
    assert(gs.take(NUM_GUESSES as int) == gs);
}

proof fn lemma_misses_counted(s: SessionView, gs: Seq<Seq<char>>, k: int)
    requires
        0 <= k <= gs.len(),
        !s.won,
        forall|i: int|
            0 <= i < gs.len() ==> is_valid_guess(s.words, #[trigger] gs[i]) && !all_correct(
                hints_of(gs[i], s.target),
            ),
    ensures
        play(s, gs.take(k)) == (SessionView { used: s.used + k as nat, won: false, ..s }),
    decreases k,
{
    if k > 0 {
        lemma_misses_counted(s, gs, k - 1);
        assert(gs.take(k).drop_last() == gs.take(k - 1));
        assert(gs.take(k).last() == gs[k - 1]);
    } else {
        assert(gs.take(0).len() == 0);
    }
}

/// Two lines of ASCII text that differ only in the case of their letters are
/// scored as the same guess.
pub proof fn lemma_case_insensitive(s: SessionView, a: Seq<char>, b: Seq<char>)
    requires
        ascii_lower(a) == ascii_lower(b),
    ensures
        ascii_lower(trimmed(a)) == ascii_lower(trimmed(b)),
        after_guess(s, ascii_lower(trimmed(a))) == after_guess(s, ascii_lower(trimmed(b))),
{
    lemma_trim_commutes_with_lower(a);
    lemma_trim_commutes_with_lower(b);
}

} // verus!
