use wordle::{generate_hints, Hint};

use Hint::{Close, Correct, Wrong};

fn hits(h: &[Hint; 5]) -> usize {
    h.iter().filter(|x| **x != Wrong).count()
}

fn common_letters(a: &str, b: &str) -> usize {
    let mut rest: Vec<char> = b.chars().collect();
    let mut n = 0;
    for c in a.chars() {
        if let Some(p) = rest.iter().position(|x| *x == c) {
            rest.remove(p);
            n += 1;
        }
    }
    n
}

#[test]
fn worked_duplicate_scenario() {
    assert_eq!(generate_hints("abcab", "aabbc"), [Correct, Close, Close, Close, Close]);
}

#[test]
fn repeated_letters_against_fewer_in_target() {
    assert_eq!(generate_hints("aabbb", "ababx"), [Correct, Close, Close, Correct, Wrong]);
}

#[test]
fn letter_twice_in_guess_once_unmatched_in_target() {
    assert_eq!(generate_hints("lolly", "hello"), [Wrong, Close, Correct, Correct, Wrong]);
    assert_eq!(generate_hints("llama", "hello"), [Close, Close, Wrong, Wrong, Wrong]);
    assert_eq!(generate_hints("speed", "abide"), [Wrong, Wrong, Close, Wrong, Close]);
}

#[test]
fn identical_word_is_all_correct() {
    for w in ["crane", "hello", "aaaaa", "abcab"] {
        assert_eq!(generate_hints(w, w), [Correct; 5]);
    }
}

#[test]
fn five_hints_one_per_position() {
    let h = generate_hints("zzzzz", "crane");
    assert_eq!(h.len(), 5);
    assert_eq!(h, [Wrong; 5]);
    assert_eq!(generate_hints("nacre", "crane"), [Close, Close, Close, Close, Correct]);
}

#[test]
fn hits_within_common_letters() {
    let pairs = [
        ("abcab", "aabbc"),
        ("aabbb", "ababx"),
        ("lolly", "hello"),
        ("eeeee", "beers"),
        ("crane", "nacre"),
        ("zzzzz", "crane"),
    ];
    for (g, t) in pairs {
        let h = generate_hints(g, t);
        assert!(hits(&h) <= common_letters(g, t));
    }
    assert_eq!(generate_hints("eeeee", "beers"), [Wrong, Correct, Correct, Wrong, Wrong]);
}
