use crate::status::{stronger, strength, LetterStatus};
use vstd::prelude::*;

verus! {

/// Number of keys on the keyboard, one per letter `A` to `Z`.
pub const KEY_COUNT: usize = 26;

/// Whether letter `c` is the one shown on key `slot` (`A` is key 0).
pub open spec fn on_key(c: char, slot: int) -> bool {
    'A' <= c <= 'Z' && (c as int) - ('A' as int) == slot
}

/// Strongest feedback that positions `k < n` of one evaluated word give key `slot`.
pub open spec fn best_in_word(word: Seq<char>, row: Seq<LetterStatus>, slot: int, n: int) -> LetterStatus
    decreases n,
{
    if n <= 0 {
        LetterStatus::Unused
    } else {
        stronger(
            best_in_word(word, row, slot, n - 1),
            if on_key(word[n - 1], slot) {
                row[n - 1]
            } else {
                LetterStatus::Unused
            },
        )
    }
}

/// Strongest feedback for key `slot` over the first `a` evaluated words.
pub open spec fn key_summary(words: Seq<Seq<char>>, rows: Seq<Seq<LetterStatus>>, slot: int, a: int) -> LetterStatus
    decreases a,
{
    if a <= 0 {
        LetterStatus::Unused
    } else {
        stronger(
            key_summary(words, rows, slot, a - 1),
            best_in_word(words[a - 1], rows[a - 1], slot, words[a - 1].len() as int),
        )
    }
}

/// Finalizing one more evaluated word never weakens the feedback shown on a key.
pub proof fn lemma_keyboard_never_weakens(
    words: Seq<Seq<char>>,
    rows: Seq<Seq<LetterStatus>>,
    slot: int,
    a: int,
)
    requires
        0 <= a,
    ensures
        strength(key_summary(words, rows, slot, a + 1)) >= strength(key_summary(words, rows, slot, a)),
{
}

/// The summary over the first `a` words reads nothing beyond those words.
pub proof fn lemma_key_summary_prefix(
    words1: Seq<Seq<char>>,
    rows1: Seq<Seq<LetterStatus>>,
    words2: Seq<Seq<char>>,
    rows2: Seq<Seq<LetterStatus>>,
    slot: int,
    a: int,
)
    requires
        0 <= a <= words1.len(),
        a <= words2.len(),
        a <= rows1.len(),
        a <= rows2.len(),
        forall|i: int| 0 <= i < a ==> words1[i] == words2[i] && rows1[i] == rows2[i],
    ensures
        key_summary(words1, rows1, slot, a) == key_summary(words2, rows2, slot, a),
    decreases a,
{
    if a > 0 {
        lemma_key_summary_prefix(words1, rows1, words2, rows2, slot, a - 1);
    }
}

} // verus!
