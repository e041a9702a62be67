use crate::status::WORD_LENGTH;
use vstd::prelude::*;
use vstd::string::*;

verus! {

/// What `str::trim` leaves of a line.
pub uninterp spec fn trimmed(s: Seq<char>) -> Seq<char>;

/// What `str::to_uppercase` makes of a text.
pub uninterp spec fn upper_of(s: Seq<char>) -> Seq<char>;

/// Relies on `str::trim`: the line without leading and trailing whitespace.
#[verifier::external_body]
fn trim_line(s: &str) -> (r: &str)
    ensures
        r@ == trimmed(s@),
{
    s.trim()
}

/// Relies on `str::to_uppercase`: the text in upper case.
#[verifier::external_body]
fn to_upper(s: &str) -> (r: String)
    ensures
        r@ == upper_of(s@),
{
    s.to_uppercase()
}

/// A line of a word list as a candidate word: trimmed, then in upper case.
pub open spec fn candidate(line: Seq<char>) -> Seq<char> {
    upper_of(trimmed(line))
}

/// The words among the first `n` of `ws` that have `WORD_LENGTH` letters, in order.
pub open spec fn of_word_length(ws: Seq<Seq<char>>, n: int) -> Seq<Seq<char>>
    decreases n,
{
    if n <= 0 {
        Seq::empty()
    } else if ws[n - 1].len() == WORD_LENGTH {
        of_word_length(ws, n - 1).push(ws[n - 1])
    } else {
        of_word_length(ws, n - 1)
    }
}

/// Keeps the words that have exactly `WORD_LENGTH` letters, in their order.
pub fn words_of_length(candidates: Vec<String>) -> (r: Vec<String>)
    ensures
        r@.map_values(|w: String| w@) == of_word_length(
            candidates@.map_values(|w: String| w@),
            candidates@.len() as int,
        ),
        forall|i: int| 0 <= i < r@.len() ==> (#[trigger] r@[i])@.len() == WORD_LENGTH,
{
    let ghost src = candidates@.map_values(|w: String| w@);
    let n = candidates.len();
    let mut rest = candidates;
    let mut kept: Vec<String> = Vec::new();
    let mut i: usize = 0;
    while i < n
        invariant
            n == src.len(),
            rest@.len() == n,
            forall|k: int| i <= k < n ==> (#[trigger] rest@[k])@ == src[k],
            i <= n,
            kept@.map_values(|w: String| w@) == of_word_length(src, i as int),
            forall|k: int| 0 <= k < kept@.len() ==> (#[trigger] kept@[k])@.len() == WORD_LENGTH,
        decreases n - i,
    {
        let mut word = String::new();
        std::mem::swap(&mut word, &mut rest[i]);
        if word.as_str().unicode_len() == WORD_LENGTH {
            let ghost before = kept@;
            kept.push(word);
            assert(kept@.map_values(|w: String| w@) =~= before.map_values(|w: String| w@).push(word@));
        }
        i += 1;
    }
    kept
}

/// Turns the lines of a word list into target words: each line trimmed and put
/// in upper case, and kept only when it has exactly `WORD_LENGTH` letters.
pub fn words_from_lines(lines: &Vec<String>) -> (r: Vec<String>)
    ensures
        r@.map_values(|w: String| w@) == of_word_length(
            lines@.map_values(|l: String| candidate(l@)),
            lines@.len() as int,
        ),
        forall|i: int| 0 <= i < r@.len() ==> (#[trigger] r@[i])@.len() == WORD_LENGTH,
{
    let mut candidates: Vec<String> = Vec::new();
    let mut i: usize = 0;
    while i < lines.len()
        invariant
            i <= lines@.len(),
            candidates@.len() == i,
            candidates@.map_values(|w: String| w@) == lines@.subrange(0, i as int).map_values(
                |l: String| candidate(l@),
            ),
        decreases lines@.len() - i,
    {
        let line = lines[i].as_str();
        let word = to_upper(trim_line(line));
        let ghost before = candidates@;
        candidates.push(word);
        assert forall|k: int| 0 <= k < i implies candidates@[k]@ == candidate(lines@[k]@) by {
            assert(before.map_values(|w: String| w@)[k] == lines@.subrange(0, i as int).map_values(
                |l: String| candidate(l@),
            )[k]);
        }
        assert(candidates@.map_values(|w: String| w@) =~= lines@.subrange(0, i + 1).map_values(
            |l: String| candidate(l@),
        ));
        i += 1;
    }
    assert(lines@.subrange(0, lines@.len() as int) =~= lines@);
    words_of_length(candidates)
}

} // verus!
