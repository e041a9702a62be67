use crate::status::{LetterStatus, WORD_LENGTH};
use vstd::prelude::*;

verus! {

/// Number of positions `k < n` where the guess holds `c` and misses the target there.
pub open spec fn misplaced_before(g: Seq<char>, t: Seq<char>, c: char, n: int) -> nat
    decreases n,
{
    if n <= 0 {
        0
    } else {
        misplaced_before(g, t, c, n - 1) + if g[n - 1] == c && g[n - 1] != t[n - 1] {
            1nat
        } else {
            0nat
        }
    }
}

/// Number of target positions `j < n` holding `c` that no exact match consumes.
pub open spec fn spare_in_target(g: Seq<char>, t: Seq<char>, c: char, n: int) -> nat
    decreases n,
{
    if n <= 0 {
        0
    } else {
        spare_in_target(g, t, c, n - 1) + if t[n - 1] == c && g[n - 1] != t[n - 1] {
            1nat
        } else {
            0nat
        }
    }
}

/// Feedback for position `i` of guess `g` against target `t`: exact matches are
/// `Correct`; the other occurrences of a letter, from left to right, are `Present`
/// as long as unconsumed occurrences of it remain in the target, `Absent` after.
pub open spec fn feedback_at(g: Seq<char>, t: Seq<char>, i: int) -> LetterStatus {
    if g[i] == t[i] {
        LetterStatus::Correct
    } else if misplaced_before(g, t, g[i], i) < spare_in_target(g, t, g[i], t.len() as int) {
        LetterStatus::Present
    } else {
        LetterStatus::Absent
    }
}

/// Feedback for every position of the guess.
pub open spec fn feedback(g: Seq<char>, t: Seq<char>) -> Seq<LetterStatus> {
    Seq::new(g.len(), |i: int| feedback_at(g, t, i))
}

/// Number of target positions `j < n` holding `c` that are marked used, not exact matches.
spec fn used_spare(g: Seq<char>, t: Seq<char>, used: Seq<bool>, c: char, n: int) -> nat
    decreases n,
{
    if n <= 0 {
        0
    } else {
        used_spare(g, t, used, c, n - 1) + if used[n - 1] && t[n - 1] == c && g[n - 1]
            != t[n - 1] {
            1nat
        } else {
            0nat
        }
    }
}

proof fn lemma_used_spare_zero(g: Seq<char>, t: Seq<char>, used: Seq<bool>, c: char, n: int)
    requires
        n <= used.len(),
        n <= g.len(),
        n <= t.len(),
        forall|j: int| 0 <= j < n && used[j] ==> g[j] == t[j],
    ensures
        used_spare(g, t, used, c, n) == 0,
    decreases n,
{
    if n > 0 {
        lemma_used_spare_zero(g, t, used, c, n - 1);
    }
}

proof fn lemma_used_spare_bound(g: Seq<char>, t: Seq<char>, used: Seq<bool>, c: char, n: int)
    requires
        n <= used.len(),
        n <= g.len(),
        n <= t.len(),
    ensures
        used_spare(g, t, used, c, n) <= spare_in_target(g, t, c, n),
        used_spare(g, t, used, c, n) == spare_in_target(g, t, c, n) <==> forall|j: int|
            0 <= j < n && t[j] == c && g[j] != t[j] ==> used[j],
    decreases n,
{
    if n > 0 {
        lemma_used_spare_bound(g, t, used, c, n - 1);
    }
}

proof fn lemma_used_spare_mark(
    g: Seq<char>,
    t: Seq<char>,
    used: Seq<bool>,
    j: int,
    c: char,
    n: int,
)
    requires
        n <= used.len(),
        n <= g.len(),
        n <= t.len(),
        0 <= j < used.len(),
        !used[j],
        g[j] != t[j],
    ensures
        used_spare(g, t, used.update(j, true), c, n) == used_spare(g, t, used, c, n) + if j < n
            && t[j] == c {
            1nat
        } else {
            0nat
        },
    decreases n,
{
    if n > 0 {
        lemma_used_spare_mark(g, t, used, j, c, n - 1);
    }
}

/// Evaluates `guess` against `target`: exact matches first, then the remaining
/// letters left to right, each consuming the first unconsumed equal target letter.
pub fn evaluate(guess: &Vec<char>, target: &Vec<char>) -> (r: [LetterStatus; WORD_LENGTH])
    requires
        guess@.len() == WORD_LENGTH,
        target@.len() == WORD_LENGTH,
    ensures
        r@ == feedback(guess@, target@),
{
    let ghost g = guess@;
    let ghost t = target@;
    let mut row = [LetterStatus::Unused; WORD_LENGTH];
    let mut used = [false; WORD_LENGTH];
    let mut i: usize = 0;
    while i < WORD_LENGTH
        invariant
            g == guess@,
            t == target@,
            g.len() == WORD_LENGTH,
            t.len() == WORD_LENGTH,
            i <= WORD_LENGTH,
            forall|k: int| 0 <= k < i ==> used@[k] == (g[k] == t[k]),
            forall|k: int| i <= k < WORD_LENGTH ==> !used@[k],
            forall|k: int|
                0 <= k < i ==> row@[k] == if g[k] == t[k] {
                    LetterStatus::Correct
                } else {
                    LetterStatus::Unused
                },
            forall|k: int| i <= k < WORD_LENGTH ==> row@[k] == LetterStatus::Unused,
        decreases WORD_LENGTH - i,
    {
        if guess[i] == target[i] {
            row[i] = LetterStatus::Correct;
            used[i] = true;
        }
        i += 1;
    }
    assert forall|c: char| #[trigger] used_spare(g, t, used@, c, WORD_LENGTH as int) == 0 by {
        lemma_used_spare_zero(g, t, used@, c, WORD_LENGTH as int);
    }
    let mut i: usize = 0;
    while i < WORD_LENGTH
        invariant
            g == guess@,
            t == target@,
            g.len() == WORD_LENGTH,
            t.len() == WORD_LENGTH,
            i <= WORD_LENGTH,
            forall|k: int| 0 <= k < WORD_LENGTH && g[k] == t[k] ==> used@[k],
            forall|c: char|
                #[trigger] used_spare(g, t, used@, c, WORD_LENGTH as int) == {
                    let p = misplaced_before(g, t, c, i as int);
                    let s = spare_in_target(g, t, c, WORD_LENGTH as int);
                    if p < s {
                        p
                    } else {
                        s
                    }
                },
            forall|k: int| 0 <= k < i ==> row@[k] == feedback_at(g, t, k),
            forall|k: int|
                i <= k < WORD_LENGTH ==> row@[k] == if g[k] == t[k] {
                    LetterStatus::Correct
                } else {
                    LetterStatus::Unused
                },
        decreases WORD_LENGTH - i,
    {
        if guess[i] != target[i] {
            let c = guess[i];
            let ghost before = used@;
            proof {
                lemma_used_spare_bound(g, t, before, c, WORD_LENGTH as int);
            }
            let mut found = false;
            let mut j: usize = 0;
            while j < WORD_LENGTH
                invariant
                    g == guess@,
                    t == target@,
                    g.len() == WORD_LENGTH,
                    t.len() == WORD_LENGTH,
                    i < WORD_LENGTH,
                    c == g[i as int],
                    j <= WORD_LENGTH,
                    !found ==> used@ == before,
                    !found ==> forall|k: int| 0 <= k < j && t[k] == c ==> before[k],
                    found ==> exists|k: int|
                        0 <= k < WORD_LENGTH && !before[k] && t[k] == c && g[k] != t[k]
                            && used@ == before.update(k, true),
                    forall|k: int| 0 <= k < WORD_LENGTH && g[k] == t[k] ==> before[k],
                decreases WORD_LENGTH - j,
            {
                if !found && !used[j] && target[j] == c {
                    used[j] = true;
                    found = true;
                }
                j += 1;
            }
            if found {
                row[i] = LetterStatus::Present;
            } else {
                row[i] = LetterStatus::Absent;
            }
            proof {
                if found {
                    let k = choose|k: int|
                        0 <= k < WORD_LENGTH && !before[k] && t[k] == c && g[k] != t[k]
                            && used@ == before.update(k, true);
                    assert forall|d: char|
                        #[trigger] used_spare(g, t, used@, d, WORD_LENGTH as int)
                            == used_spare(g, t, before, d, WORD_LENGTH as int) + if d == c {
                            1nat
                        } else {
                            0nat
                        } by {
                        lemma_used_spare_mark(g, t, before, k, d, WORD_LENGTH as int);
                    }
                }
                assert forall|d: char|
                    misplaced_before(g, t, d, i + 1) == misplaced_before(g, t, d, i as int)
                        + if d == c {
                        1nat
                    } else {
                        0nat
                    } by {}
            }
        } else {
            proof {
                assert forall|d: char|
                    misplaced_before(g, t, d, i + 1) == misplaced_before(g, t, d, i as int) by {}
            }
        }
        i += 1;
    }
    assert(row@ =~= feedback(g, t));
    row
}

/// Number of positions `k < n` of `s` that hold `c`.
pub open spec fn occurrences(s: Seq<char>, c: char, n: int) -> nat
    decreases n,
{
    if n <= 0 {
        0
    } else {
        occurrences(s, c, n - 1) + if s[n - 1] == c {
            1nat
        } else {
            0nat
        }
    }
}

/// Number of positions `k < n` of the guess that hold `c` and are credited
/// as `Correct` or `Present`.
pub open spec fn credited(g: Seq<char>, t: Seq<char>, c: char, n: int) -> nat
    decreases n,
{
    if n <= 0 {
        0
    } else {
        credited(g, t, c, n - 1) + if g[n - 1] == c && feedback_at(g, t, n - 1)
            != LetterStatus::Absent {
            1nat
        } else {
            0nat
        }
    }
}

/// Number of exact matches on `c` among positions `k < n`.
spec fn exact_before(g: Seq<char>, t: Seq<char>, c: char, n: int) -> nat
    decreases n,
{
    if n <= 0 {
        0
    } else {
        exact_before(g, t, c, n - 1) + if g[n - 1] == c && g[n - 1] == t[n - 1] {
            1nat
        } else {
            0nat
        }
    }
}

proof fn lemma_target_split(g: Seq<char>, t: Seq<char>, c: char, n: int)
    requires
        n <= g.len(),
        n <= t.len(),
    ensures
        exact_before(g, t, c, n) + spare_in_target(g, t, c, n) == occurrences(t, c, n),
    decreases n,
{
    if n > 0 {
        lemma_target_split(g, t, c, n - 1);
    }
}

proof fn lemma_credited_split(g: Seq<char>, t: Seq<char>, c: char, n: int)
    requires
        g.len() == t.len(),
        n <= g.len(),
    ensures
        credited(g, t, c, n) == exact_before(g, t, c, n) + {
            let m = misplaced_before(g, t, c, n);
            let s = spare_in_target(g, t, c, t.len() as int);
            if m < s {
                m
            } else {
                s
            }
        },
    decreases n,
{
    if n > 0 {
        lemma_credited_split(g, t, c, n - 1);
    }
}

/// A letter is never credited (`Correct` or `Present`) at more positions of
/// the guess than it occurs in the target.
pub proof fn lemma_feedback_conserves_letters(g: Seq<char>, t: Seq<char>, c: char)
    requires
        g.len() == t.len(),
    ensures
        credited(g, t, c, g.len() as int) <= occurrences(t, c, t.len() as int),
{
    lemma_credited_split(g, t, c, g.len() as int);
    lemma_target_split(g, t, c, t.len() as int);
}

} // verus!
