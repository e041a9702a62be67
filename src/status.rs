use vstd::prelude::*;

verus! {

/// Number of letters in every word.
pub const WORD_LENGTH: usize = 5;

/// Number of guesses a player is allowed.
pub const MAX_ATTEMPTS: usize = 6;

/// Feedback for one guessed letter, or the best feedback known for a key.
#[derive(Debug, Clone, Copy, PartialEq, Eq, Structural)]
pub enum LetterStatus {
    /// Right letter in the right position.
    Correct,
    /// Letter occurs in the word, elsewhere.
    Present,
    /// Letter does not occur (any more) in the word.
    Absent,
    /// No feedback yet.
    Unused,
}

/// Phase of one game.
#[derive(Debug, Clone, Copy, PartialEq, Eq, Structural)]
pub enum GameStatus {
    Playing,
    Won,
    Lost,
    Quitting,
}

/// Strength of a feedback value: `Unused < Absent < Present < Correct`.
pub open spec fn strength(s: LetterStatus) -> nat {
    match s {
        LetterStatus::Unused => 0,
        LetterStatus::Absent => 1,
        LetterStatus::Present => 2,
        LetterStatus::Correct => 3,
    }
}

/// The stronger of two feedback values; the first one on a tie.
pub open spec fn stronger(a: LetterStatus, b: LetterStatus) -> LetterStatus {
    if strength(b) > strength(a) {
        b
    } else {
        a
    }
}

impl LetterStatus {
    /// Strength rank of this value, from 0 (`Unused`) to 3 (`Correct`).
    pub fn rank(self) -> (r: u8)
        ensures
            r as nat == strength(self),
    {
        match self {
            LetterStatus::Unused => 0,
            LetterStatus::Absent => 1,
            LetterStatus::Present => 2,
            LetterStatus::Correct => 3,
        }
    }

    /// Keeps the stronger of `self` and `other`.
    pub fn max_strength(self, other: LetterStatus) -> (r: LetterStatus)
        ensures
            r == stronger(self, other),
            strength(r) >= strength(self),
            strength(r) >= strength(other),
    {
        if other.rank() > self.rank() {
            other
        } else {
            self
        }
    }
}

} // verus!
