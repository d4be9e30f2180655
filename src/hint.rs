//! The hint engine: per-letter feedback for a guess against the target.
use vstd::prelude::*;
use vstd::multiset::Multiset;
use crate::text::chars_of;

verus! {

/// Feedback for one letter of a guess.
#[derive(Debug, Clone, Copy, PartialEq, Eq, Structural)]
pub enum Hint {
    /// The letter stands at this position of the target.
    Correct,
    /// The letter occurs elsewhere in the target, not yet claimed by another hint.
    Close,
    /// The letter is not in the target, or all its occurrences are claimed.
    Wrong,
}

/// Number of positions `k < n` where the target holds `c` and the guess
/// does not match the target: the target letters left for `Close` hints.
pub open spec fn unmatched(g: Seq<char>, t: Seq<char>, n: int, c: char) -> nat
    decreases n,
{
    if n <= 0 {
        0
    } else {
        unmatched(g, t, n - 1, c) + if t[n - 1] == c && g[n - 1] != t[n - 1] {
            1nat
        } else {
            0nat
        }
    }
}

/// Number of positions `k < n` where the guess holds `c` and does not match
/// the target.
pub open spec fn pending(g: Seq<char>, t: Seq<char>, n: int, c: char) -> nat
    decreases n,
{
    if n <= 0 {
        0
    } else {
        pending(g, t, n - 1, c) + if g[n - 1] == c && g[n - 1] != t[n - 1] {
            1nat
        } else {
            0nat
        }
    }
}

/// The hint at position `i`: `Correct` where the letters agree; otherwise
/// `Close` while the earlier misplaced occurrences of the same guess letter
/// have not used up the target's unmatched occurrences of it, else `Wrong`.
pub open spec fn hint_at(g: Seq<char>, t: Seq<char>, i: int) -> Hint {
    if g[i] == t[i] {
        Hint::Correct
    } else if pending(g, t, i, g[i]) < unmatched(g, t, t.len() as int, g[i]) {
        Hint::Close
    } else {
        Hint::Wrong
    }
}

/// The hints for a guess against a target of the same length, one per position.
pub open spec fn hints_of(g: Seq<char>, t: Seq<char>) -> Seq<Hint> {
    Seq::new(g.len(), |i: int| hint_at(g, t, i))
}

/// The smaller of `a` and `b`.
pub open spec fn min_nat(a: nat, b: nat) -> nat {
    if a <= b {
        a
    } else {
        b
    }
}

/// Per-letter feedback for `guess` against `chosen_word`, both of five characters.
pub fn generate_hints(guess: &str, chosen_word: &str) -> (hints: [Hint; 5])
    requires
        guess@.len() == 5,
        chosen_word@.len() == 5,
    ensures
        hints@.len() == 5,
        hints@ == hints_of(guess@, chosen_word@),
{
    broadcast use vstd::seq_lib::group_to_multiset_ensures;

    let g = chars_of(guess);
    let t = chars_of(chosen_word);
    let ghost gs = g@;
    let ghost ts = t@;

    // Letters in place; the target's other letters are kept for `Close`.
    let mut marks: Vec<Hint> = Vec::new();
    let mut remaining: Vec<char> = Vec::with_capacity(5);
    let mut i: usize = 0;
    while i < 5
        invariant
            g@ == gs,
            t@ == ts,
            gs.len() == 5,
            ts.len() == 5,
            i <= 5,
            marks@.len() == i,
            forall|j: int|
                0 <= j < i ==> #[trigger] marks@[j] == if gs[j] == ts[j] {
                    Hint::Correct
                } else {
                    Hint::Wrong
                },
            forall|c: char| #[trigger] remaining@.to_multiset().count(c) == unmatched(gs, ts, i as int, c),
        decreases 5 - i,
    {
        let ghost before = remaining@;
        if g[i] == t[i] {
            marks.push(Hint::Correct);
        } else {
            remaining.push(t[i]);
            marks.push(Hint::Wrong);
        }
        proof {
            assert forall|c: char| #[trigger]
                remaining@.to_multiset().count(c) == unmatched(gs, ts, i + 1, c) by {
                before.to_multiset_ensures();
                if gs[i as int] != ts[i as int] {
                    assert(remaining@ == before.push(ts[i as int]));
                    assert(remaining@.to_multiset() == before.to_multiset().insert(ts[i as int]));
                } else {
                    assert(remaining@ == before);
                }
            }
        }
        i = i + 1;
    }

    // Misplaced letters, left to right, each claiming one remaining letter.
    let mut i: usize = 0;
    while i < 5
        invariant
            g@ == gs,
            t@ == ts,
            gs.len() == 5,
            ts.len() == 5,
            i <= 5,
            marks@.len() == 5,
            forall|j: int| 0 <= j < i ==> #[trigger] marks@[j] == hint_at(gs, ts, j),
            forall|j: int|
                i <= j < 5 ==> #[trigger] marks@[j] == if gs[j] == ts[j] {
                    Hint::Correct
                } else {
                    Hint::Wrong
                },
            forall|c: char|
                #[trigger] remaining@.to_multiset().count(c) + min_nat(
                    pending(gs, ts, i as int, c),
                    unmatched(gs, ts, 5, c),
                ) == unmatched(gs, ts, 5, c),
        decreases 5 - i,
    {
        let c = g[i];
        let ghost before = remaining@;
        let ghost p = pending(gs, ts, i as int, c);
        let ghost u = unmatched(gs, ts, 5, c);
        assert(before.to_multiset().count(c) + min_nat(p, u) == u);
        if marks[i] != Hint::Correct {
            let mut k: usize = 0;
            while k < remaining.len() && remaining[k] != c
                invariant
                    k <= remaining.len(),
                    forall|m: int| 0 <= m < k ==> remaining@[m] != c,
                decreases remaining.len() - k,
            {
                k = k + 1;
            }
            if k < remaining.len() {
                proof {
                    assert(before.contains(c));
                    before.to_multiset_ensures();
                    assert(before.to_multiset().count(c) > 0);
                    assert(p < u);
                }
                remaining.remove(k);
                marks.set(i, Hint::Close);
                proof {
                    before.to_multiset_ensures();
                    assert(remaining@ == before.remove(k as int));
                    assert(remaining@.to_multiset() == before.to_multiset().remove(c));
                }
            } else {
                proof {
                    assert(!before.contains(c));
                    before.to_multiset_ensures();
                    assert(before.to_multiset().count(c) == 0);
                    assert(p >= u);
                }
            }
        }
        assert(marks@[i as int] == hint_at(gs, ts, i as int));
        proof {
            assert forall|d: char| #[trigger]
                remaining@.to_multiset().count(d) + min_nat(
                    pending(gs, ts, i + 1, d),
                    unmatched(gs, ts, 5, d),
                ) == unmatched(gs, ts, 5, d) by {
                assert(before.to_multiset().count(d) + min_nat(
                    pending(gs, ts, i as int, d),
                    unmatched(gs, ts, 5, d),
                ) == unmatched(gs, ts, 5, d));
            }
        }
        i = i + 1;
    }
    [marks[0], marks[1], marks[2], marks[3], marks[4]]
}

/// Number of positions `k < n` where guess and target both hold `c`.
pub open spec fn matched(g: Seq<char>, t: Seq<char>, n: int, c: char) -> nat
    decreases n,
{
    if n <= 0 {
        0
    } else {
        matched(g, t, n - 1, c) + if g[n - 1] == c && t[n - 1] == c {
            1nat
        } else {
            0nat
        }
    }
}

/// Number of hints among the first `n` of `h` that are not `Wrong`.
pub open spec fn hits_upto(h: Seq<Hint>, n: int) -> nat
    decreases n,
{
    if n <= 0 {
        0
    } else {
        hits_upto(h, n - 1) + if h[n - 1] != Hint::Wrong {
            1nat
        } else {
            0nat
        }
    }
}

/// Number of `Correct` or `Close` hints in `h`.
pub open spec fn hits(h: Seq<Hint>) -> nat {
    hits_upto(h, h.len() as int)
}

/// The guess letters at the first `n` positions whose hint is not `Wrong`.
pub open spec fn hit_letters(g: Seq<char>, t: Seq<char>, n: int) -> Multiset<char>
    decreases n,
{
    if n <= 0 {
        Multiset::empty()
    } else if hint_at(g, t, n - 1) != Hint::Wrong {
        hit_letters(g, t, n - 1).insert(g[n - 1])
    } else {
        hit_letters(g, t, n - 1)
    }
}

/// A word guessed against itself gets `Correct` at every position.
pub proof fn lemma_identical_word_all_correct(w: Seq<char>)
    ensures
        hints_of(w, w).len() == w.len(),
        forall|i: int| 0 <= i < w.len() ==> #[trigger] hints_of(w, w)[i] == Hint::Correct,
{
}

proof fn lemma_letter_counts(g: Seq<char>, t: Seq<char>, n: int)
    requires
        0 <= n <= g.len(),
        g.len() == t.len(),
    ensures
        forall|c: char| #[trigger]
            g.take(n).to_multiset().count(c) == matched(g, t, n, c) + pending(g, t, n, c),
        forall|c: char| #[trigger]
            t.take(n).to_multiset().count(c) == matched(g, t, n, c) + unmatched(g, t, n, c),
    decreases n,
{
    broadcast use vstd::seq_lib::group_to_multiset_ensures;

    if n == 0 {
        assert(g.take(0) == Seq::<char>::empty());
        assert(t.take(0) == Seq::<char>::empty());
    } else {
        lemma_letter_counts(g, t, n - 1);
        assert(g.take(n) == g.take(n - 1).push(g[n - 1]));
        assert(t.take(n) == t.take(n - 1).push(t[n - 1]));
    }
}

proof fn lemma_hit_letter_counts(g: Seq<char>, t: Seq<char>, n: int)
    requires
        0 <= n <= g.len(),
        g.len() == t.len(),
    ensures
        forall|c: char| #[trigger]
            hit_letters(g, t, n).count(c) == matched(g, t, n, c) + min_nat(
                pending(g, t, n, c),
                unmatched(g, t, t.len() as int, c),
            ),
        hit_letters(g, t, n).len() == hits_upto(hints_of(g, t), n),
    decreases n,
{
    broadcast use vstd::multiset::group_multiset_axioms;

    if n > 0 {
        lemma_hit_letter_counts(g, t, n - 1);
    }
}

/// `Correct` and `Close` hints together never outnumber the letters that the
/// guess and the target have in common, counted with multiplicity.
pub proof fn lemma_hits_within_common_letters(g: Seq<char>, t: Seq<char>)
    requires
        g.len() == t.len(),
    ensures
        hits(hints_of(g, t)) <= g.to_multiset().intersection_with(t.to_multiset()).len(),
{
    broadcast use vstd::multiset::group_multiset_axioms;

    let n = g.len() as int;
    let common = g.to_multiset().intersection_with(t.to_multiset());
    let hit = hit_letters(g, t, n);
    lemma_letter_counts(g, t, n);
    lemma_hit_letter_counts(g, t, n);
    assert(g.take(n) == g);
    assert(t.take(n) == t);
    assert forall|c: char| hit.count(c) <= common.count(c) by {
        vstd::multiset::lemma_intersection_count(g.to_multiset(), t.to_multiset(), c);
    }
    assert(hit.subset_of(common));
    vstd::multiset::axiom_len_sub(common, hit);
}

} // verus!
