use wordle::{Hint, Outcome, Session, SetupError, NUM_GUESSES};

fn dictionary() -> Vec<String> {
    ["abcab", "aabbc", "crane", "hello", "lolly", "nacre", "speed", "abide", "toolong"]
        .iter()
        .map(|w| w.to_string())
        .collect()
}

fn session(target: &str) -> Session {
    Session::new(target.to_string(), dictionary()).unwrap()
}

fn scored(o: Outcome) -> [Hint; 5] {
    match o {
        Outcome::Scored(h) => h,
        Outcome::Invalid => panic!("guess was refused"),
    }
}

#[test]
fn new_refuses_target_of_wrong_length() {
    assert!(matches!(Session::new("four".to_string(), dictionary()), Err(SetupError::BadTarget)));
    assert!(matches!(Session::new("toolong".to_string(), dictionary()), Err(SetupError::BadTarget)));
}

#[test]
fn fresh_session_state() {
    let s = session("crane");
    assert_eq!(s.attempts_used(), 0);
    assert_eq!(s.guess_number(), 1);
    assert!(!s.is_over());
    assert!(!s.has_won());
    assert_eq!(s.target(), "crane");
}

#[test]
fn start_with_no_words() {
    assert!(matches!(Session::start(&Vec::new(), dictionary()), Err(SetupError::NoWords)));
}

#[test]
fn start_picks_from_the_chosen_words() {
    let chosen = vec!["hello".to_string()];
    let s = Session::start(&chosen, dictionary()).unwrap();
    assert_eq!(s.target(), "hello");
    let chosen = vec!["crane".to_string(), "abide".to_string(), "speed".to_string()];
    for _ in 0..20 {
        let s = Session::start(&chosen, dictionary()).unwrap();
        assert!(chosen.contains(s.target()));
    }
}

#[test]
fn start_with_bad_chosen_word() {
    let chosen = vec!["xyz".to_string()];
    assert!(matches!(Session::start(&chosen, dictionary()), Err(SetupError::BadTarget)));
}

#[test]
fn invalid_guess_is_not_counted() {
    let mut s = session("crane");
    assert!(matches!(s.submit("zzzzz"), Outcome::Invalid));
    assert!(matches!(s.submit("toolong"), Outcome::Invalid));
    assert!(matches!(s.submit(""), Outcome::Invalid));
    assert!(matches!(s.submit("cran"), Outcome::Invalid));
    assert_eq!(s.attempts_used(), 0);
    assert_eq!(s.guess_number(), 1);
    assert!(!s.is_over());
}

#[test]
fn valid_guess_is_scored_and_counted() {
    let mut s = session("aabbc");
    let h = scored(s.submit("abcab"));
    assert_eq!(h, [Hint::Correct, Hint::Close, Hint::Close, Hint::Close, Hint::Close]);
    assert_eq!(s.attempts_used(), 1);
    assert_eq!(s.guess_number(), 2);
    assert!(!s.is_over());
}

#[test]
fn mixed_case_guess_is_lowered() {
    let mut upper = session("aabbc");
    let mut lower = session("aabbc");
    let a = scored(upper.submit("ABCAB"));
    let b = scored(lower.submit("abcab"));
    assert_eq!(a, b);
    assert_eq!(upper.attempts_used(), lower.attempts_used());
    let c = scored(upper.submit("AbCaB"));
    assert_eq!(c, b);
}

#[test]
fn surrounding_white_space_is_trimmed() {
    let mut s = session("crane");
    let h = scored(s.submit("  nacre \n"));
    assert_eq!(h, [Hint::Close, Hint::Close, Hint::Close, Hint::Close, Hint::Correct]);
}

#[test]
fn correct_guess_wins_and_ends() {
    let mut s = session("hello");
    scored(s.submit("crane"));
    let h = scored(s.submit("HELLO\n"));
    assert_eq!(h, [Hint::Correct; 5]);
    assert!(s.has_won());
    assert!(s.is_over());
    assert_eq!(s.attempts_used(), 2);
}

#[test]
fn six_misses_end_the_session() {
    let mut s = session("hello");
    let misses = ["crane", "abide", "speed", "lolly", "nacre", "abcab"];
    for (i, g) in misses.iter().enumerate() {
        assert!(!s.is_over());
        assert_eq!(s.guess_number(), i as u32 + 1);
        assert!(matches!(s.submit("qqqqq"), Outcome::Invalid));
        let h = scored(s.submit(g));
        assert_ne!(h, [Hint::Correct; 5]);
    }
    assert_eq!(s.attempts_used(), NUM_GUESSES);
    assert!(s.is_over());
    assert!(!s.has_won());
    assert_eq!(s.target(), "hello");
}

#[test]
fn submit_guess_takes_normalized_text() {
    let mut s = session("crane");
    assert!(matches!(s.submit_guess(&"CRANE".to_string()), Outcome::Invalid));
    let h = scored(s.submit_guess(&"crane".to_string()));
    assert_eq!(h, [Hint::Correct; 5]);
    assert!(s.has_won());
}
