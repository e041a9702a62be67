use crate::evaluation::{evaluate, feedback};
use crate::keyboard::{key_summary, lemma_key_summary_prefix, on_key, KEY_COUNT, best_in_word};
use crate::status::{strength, stronger, GameStatus, LetterStatus, MAX_ATTEMPTS, WORD_LENGTH};
use vstd::prelude::*;
use vstd::string::*;

verus! {

/// State of one game: the guesses typed so far, their feedback and the phase.
pub struct Game {
    /// Letters of each attempt; only `attempts[current_attempt]` is still edited.
    pub attempts: Vec<Vec<char>>,
    /// Feedback grid, one row per attempt, all `Unused` until the row is submitted.
    pub letter_statuses: [[LetterStatus; WORD_LENGTH]; MAX_ATTEMPTS],
    /// Index of the attempt being edited.
    pub current_attempt: usize,
    /// The secret word.
    pub target_word: String,
    pub status: GameStatus,
    /// Set by the driving loop when it wants to stop.
    pub should_quit: bool,
    /// A transient message for the player.
    pub message: Option<String>,
    /// Ticks left before `message` is cleared.
    pub message_timer: u8,
}

/// A feedback row that holds no feedback yet.
pub open spec fn blank_row(row: Seq<LetterStatus>) -> bool {
    forall|j: int| 0 <= j < row.len() ==> row[j] == LetterStatus::Unused
}

impl Game {
    /// Letters of every attempt.
    pub open spec fn words(&self) -> Seq<Seq<char>> {
        self.attempts@.map_values(|w: Vec<char>| w@)
    }

    /// Feedback rows of every attempt.
    pub open spec fn rows(&self) -> Seq<Seq<LetterStatus>> {
        self.letter_statuses@.map_values(|r: [LetterStatus; WORD_LENGTH]| r@)
    }

    /// The secret word as letters.
    pub open spec fn target(&self) -> Seq<char> {
        self.target_word@
    }

    /// Letters of the attempt being edited.
    pub open spec fn current_word(&self) -> Seq<char> {
        self.words()[self.current_attempt as int]
    }

    /// Best feedback known for key `slot` over the finalized attempts.
    pub open spec fn keyboard(&self, slot: int) -> LetterStatus {
        key_summary(self.words(), self.rows(), slot, self.current_attempt as int)
    }

    /// The invariant every game keeps.
    pub open spec fn wf(&self) -> bool {
        &&& self.attempts@.len() == MAX_ATTEMPTS
        &&& self.target().len() == WORD_LENGTH
        &&& self.current_attempt <= MAX_ATTEMPTS
        &&& forall|i: int| 0 <= i < MAX_ATTEMPTS ==> #[trigger] self.words()[i].len() <= WORD_LENGTH
        &&& forall|i: int|
            0 <= i < self.current_attempt ==> {
                &&& #[trigger] self.words()[i].len() == WORD_LENGTH
                &&& self.words()[i] != self.target()
                &&& self.rows()[i] == feedback(self.words()[i], self.target())
            }
        &&& forall|i: int|
            self.current_attempt <= i < MAX_ATTEMPTS && !(i == self.current_attempt
                && self.status == GameStatus::Won) ==> blank_row(#[trigger] self.rows()[i])
        &&& (self.status == GameStatus::Lost <==> self.current_attempt == MAX_ATTEMPTS)
        &&& self.status == GameStatus::Won ==> {
            &&& self.current_word() == self.target()
            &&& self.rows()[self.current_attempt as int] == feedback(self.target(), self.target())
        }
    }

    /// A game as it starts: being played, on its first attempt, with every
    /// attempt empty, every feedback row `Unused` and no message.
    pub open spec fn is_fresh(&self) -> bool {
        &&& self.status == GameStatus::Playing
        &&& self.current_attempt == 0
        &&& forall|i: int| 0 <= i < MAX_ATTEMPTS ==> (#[trigger] self.words()[i]).len() == 0
        &&& forall|i: int| 0 <= i < MAX_ATTEMPTS ==> blank_row(#[trigger] self.rows()[i])
        &&& !self.should_quit
        &&& self.message is None
        &&& self.message_timer == 0
    }

    /// What one submission does: with the game being played and the current
    /// attempt full, the attempt's feedback is recorded; a guess equal to the
    /// target wins and keeps the attempt index, any other advances it by one and
    /// loses when no attempt is left. In any other state nothing changes.
    pub open spec fn submitted_from(&self, before: &Game) -> bool {
        &&& self.words() == before.words()
        &&& self.target() == before.target()
        &&& self.should_quit == before.should_quit
        &&& self.message == before.message
        &&& self.message_timer == before.message_timer
        &&& if before.status == GameStatus::Playing && before.current_word().len() == WORD_LENGTH {
            &&& self.rows() == before.rows().update(
                before.current_attempt as int,
                feedback(before.current_word(), before.target()),
            )
            &&& before.current_word() == before.target() ==> {
                &&& self.status == GameStatus::Won
                &&& self.current_attempt == before.current_attempt
            }
            &&& before.current_word() != before.target() ==> {
                &&& self.current_attempt == before.current_attempt + 1
                &&& self.status == if self.current_attempt == MAX_ATTEMPTS {
                    GameStatus::Lost
                } else {
                    GameStatus::Playing
                }
            }
        } else {
            &&& self.rows() == before.rows()
            &&& self.current_attempt == before.current_attempt
            &&& self.status == before.status
        }
    }

    /// The attempts after typing `c`: appended to the current attempt while the
    /// game is being played and the attempt is not full.
    pub open spec fn typed(&self, c: char) -> Seq<Seq<char>> {
        if self.status == GameStatus::Playing && self.current_word().len() < WORD_LENGTH {
            self.words().update(self.current_attempt as int, self.current_word().push(c))
        } else {
            self.words()
        }
    }

    /// The attempts after a deletion: the current attempt loses its last letter
    /// while the game is being played and the attempt is not empty.
    pub open spec fn erased(&self) -> Seq<Seq<char>> {
        if self.status == GameStatus::Playing && self.current_word().len() > 0 {
            self.words().update(self.current_attempt as int, self.current_word().drop_last())
        } else {
            self.words()
        }
    }

    /// Everything but the attempts' letters is as in `before`.
    pub open spec fn same_but_words(&self, before: &Game) -> bool {
        &&& self.rows() == before.rows()
        &&& self.current_attempt == before.current_attempt
        &&& self.target() == before.target()
        &&& self.status == before.status
        &&& self.should_quit == before.should_quit
        &&& self.message == before.message
        &&& self.message_timer == before.message_timer
    }
}

/// Relies on rand's `SliceRandom::choose` with the thread-local generator:
/// `None` for an empty list, else (a copy of) one of its words.
#[verifier::external_body]
fn choose_word(words: &Vec<String>) -> (r: Option<String>)
    ensures
        r is None <==> words@.len() == 0,
        r matches Some(w) ==> exists|i: int| 0 <= i < words@.len() && w@ == words@[i]@,
{
    rand::seq::SliceRandom::choose(words.as_slice(), &mut rand::thread_rng()).cloned()
}

/// The letters of `s`, in order.
fn letters_of(s: &str) -> (r: Vec<char>)
    ensures
        r@ == s@,
{
    let n = s.unicode_len();
    let mut r: Vec<char> = Vec::new();
    let mut i: usize = 0;
    while i < n
        invariant
            n == s@.len(),
            i <= n,
            r@ == s@.subrange(0, i as int),
        decreases n - i,
    {
        r.push(s.get_char(i));
        i += 1;
    }
    assert(r@ =~= s@);
    r
}

/// Whether two words hold the same letters in the same order.
fn same_letters(a: &Vec<char>, b: &Vec<char>) -> (r: bool)
    ensures
        r == (a@ == b@),
{
    if a.len() != b.len() {
        return false;
    }
    let mut i: usize = 0;
    while i < a.len()
        invariant
            a@.len() == b@.len(),
            i <= a@.len(),
            forall|k: int| 0 <= k < i ==> a@[k] == b@[k],
        decreases a@.len() - i,
    {
        if a[i] != b[i] {
            return false;
        }
        i += 1;
    }
    assert(a@ =~= b@);
    true
}

impl Game {
    /// Starts a game whose secret word is drawn at random from `words`, or is
    /// `PROVA` when `words` is empty.
    pub fn new(words: &Vec<String>) -> (g: Game)
        requires
            forall|i: int| 0 <= i < words@.len() ==> (#[trigger] words@[i])@.len() == WORD_LENGTH,
        ensures
            g.wf(),
            g.is_fresh(),
            words@.len() == 0 ==> g.target() == "PROVA"@,
            words@.len() > 0 ==> exists|i: int| 0 <= i < words@.len() && g.target() == words@[i]@,
    {
        let target_word = match choose_word(words) {
            Some(w) => w,
            None => String::from_str("PROVA"),
        };
        proof {
            reveal_strlit("PROVA");
        }
        Game::with_target(target_word)
    }

    /// Starts a game on the secret word `target_word`.
    pub fn with_target(target_word: String) -> (g: Game)
        requires
            target_word@.len() == WORD_LENGTH,
        ensures
            g.wf(),
            g.is_fresh(),
            g.target() == target_word@,
    {
        let mut attempts: Vec<Vec<char>> = Vec::new();
        let mut i: usize = 0;
        while i < MAX_ATTEMPTS
            invariant
                i <= MAX_ATTEMPTS,
                attempts@.len() == i,
                forall|k: int| 0 <= k < i ==> (#[trigger] attempts@[k])@.len() == 0,
            decreases MAX_ATTEMPTS - i,
        {
            attempts.push(Vec::new());
            i += 1;
        }
        let g = Game {
            attempts,
            letter_statuses: [[LetterStatus::Unused; WORD_LENGTH]; MAX_ATTEMPTS],
            current_attempt: 0,
            target_word,
            status: GameStatus::Playing,
            should_quit: false,
            message: None,
            message_timer: 0,
        };
        assert forall|i: int| 0 <= i < MAX_ATTEMPTS implies blank_row(#[trigger] g.rows()[i]) by {
            assert(g.rows()[i] == g.letter_statuses@[i]@);
        }
        g
    }

    /// Appends `c` to the current attempt; ignored unless the game is being
    /// played and the attempt is not full.
    pub fn input_letter(&mut self, c: char)
        requires
            old(self).wf(),
        ensures
            final(self).wf(),
            final(self).words() == old(self).typed(c),
            final(self).same_but_words(old(self)),
    {
        if self.status != GameStatus::Playing {
            return;
        }
        if self.attempts[self.current_attempt].len() < WORD_LENGTH {
            self.attempts[self.current_attempt].push(c);
            assert(self.words() =~= old(self).typed(c));
        }
        assert(self.rows() == old(self).rows());
    }

    /// Removes the last letter of the current attempt; ignored unless the game
    /// is being played and the attempt is not empty.
    pub fn delete_letter(&mut self)
        requires
            old(self).wf(),
        ensures
            final(self).wf(),
            final(self).words() == old(self).erased(),
            final(self).same_but_words(old(self)),
    {
        if self.status != GameStatus::Playing {
            return;
        }
        if self.attempts[self.current_attempt].len() > 0 {
            self.attempts[self.current_attempt].pop();
            assert(self.words() =~= old(self).erased());
        }
        assert(self.rows() == old(self).rows());
    }

    /// Asks to leave the game; only a game being played can be left.
    pub fn quit(&mut self)
        requires
            old(self).wf(),
        ensures
            final(self).wf(),
            final(self).status == if old(self).status == GameStatus::Playing {
                GameStatus::Quitting
            } else {
                old(self).status
            },
            final(self).words() == old(self).words(),
            final(self).rows() == old(self).rows(),
            final(self).current_attempt == old(self).current_attempt,
            final(self).target() == old(self).target(),
            final(self).should_quit == old(self).should_quit,
            final(self).message == old(self).message,
            final(self).message_timer == old(self).message_timer,
    {
        if self.status == GameStatus::Playing {
            self.status = GameStatus::Quitting;
        }
        assert(self.rows() == old(self).rows());
        assert(self.words() == old(self).words());
    }

    /// Withdraws a request to leave: a quitting game is played again.
    pub fn cancel_quit(&mut self)
        requires
            old(self).wf(),
        ensures
            final(self).wf(),
            final(self).status == if old(self).status == GameStatus::Quitting {
                GameStatus::Playing
            } else {
                old(self).status
            },
            final(self).words() == old(self).words(),
            final(self).rows() == old(self).rows(),
            final(self).current_attempt == old(self).current_attempt,
            final(self).target() == old(self).target(),
            final(self).should_quit == old(self).should_quit,
            final(self).message == old(self).message,
            final(self).message_timer == old(self).message_timer,
    {
        if self.status == GameStatus::Quitting {
            self.status = GameStatus::Playing;
        }
        assert(self.rows() == old(self).rows());
        assert(self.words() == old(self).words());
    }

    /// Counts the message timer down by one; the message goes when it reaches zero.
    pub fn on_tick(&mut self)
        requires
            old(self).wf(),
        ensures
            final(self).wf(),
            final(self).message_timer == if old(self).message_timer > 0 {
                (old(self).message_timer - 1) as u8
            } else {
                0
            },
            final(self).message == if old(self).message_timer == 1 {
                None
            } else {
                old(self).message
            },
            final(self).words() == old(self).words(),
            final(self).rows() == old(self).rows(),
            final(self).current_attempt == old(self).current_attempt,
            final(self).target() == old(self).target(),
            final(self).status == old(self).status,
            final(self).should_quit == old(self).should_quit,
    {
        if self.message_timer > 0 {
            self.message_timer -= 1;
            if self.message_timer == 0 {
                self.message = None;
            }
        }
        assert(self.rows() == old(self).rows());
        assert(self.words() == old(self).words());
    }

    /// Writes the feedback for the current attempt into its row of the grid;
    /// does nothing when every attempt is used up.
    fn evaluate_guess(&mut self)
        requires
            old(self).attempts@.len() == MAX_ATTEMPTS,
            old(self).target().len() == WORD_LENGTH,
            old(self).current_attempt < MAX_ATTEMPTS ==> old(self).current_word().len() == WORD_LENGTH,
        ensures
            final(self).attempts == old(self).attempts,
            final(self).current_attempt == old(self).current_attempt,
            final(self).target_word == old(self).target_word,
            final(self).status == old(self).status,
            final(self).should_quit == old(self).should_quit,
            final(self).message == old(self).message,
            final(self).message_timer == old(self).message_timer,
            final(self).rows() == if old(self).current_attempt < MAX_ATTEMPTS {
                old(self).rows().update(
                    old(self).current_attempt as int,
                    feedback(old(self).current_word(), old(self).target()),
                )
            } else {
                old(self).rows()
            },
    {
        if self.current_attempt >= MAX_ATTEMPTS {
            return;
        }
        let target = letters_of(self.target_word.as_str());
        let row = evaluate(&self.attempts[self.current_attempt], &target);
        self.letter_statuses[self.current_attempt] = row;
        assert(self.rows() =~= old(self).rows().update(
            old(self).current_attempt as int,
            feedback(old(self).current_word(), old(self).target()),
        ));
    }

    /// Submits the current attempt. Ignored unless the game is being played and
    /// the attempt is full. Otherwise its feedback is recorded; a guess equal to the
    /// target wins without moving on, any other moves on to the next attempt and
    /// loses the game when none is left.
    pub fn submit_guess(&mut self)
        requires
            old(self).wf(),
        ensures
            final(self).wf(),
            final(self).submitted_from(old(self)),
            forall|slot: int|
                strength(#[trigger] final(self).keyboard(slot)) >= strength(old(self).keyboard(slot)),
    {
        if self.status != GameStatus::Playing {
            return;
        }
        if self.attempts[self.current_attempt].len() != WORD_LENGTH {
            return;
        }
        let ghost cur = self.current_attempt as int;
        self.evaluate_guess();
        let target = letters_of(self.target_word.as_str());
        if same_letters(&self.attempts[self.current_attempt], &target) {
            self.status = GameStatus::Won;
            proof {
                assert forall|slot: int|
                    strength(#[trigger] self.keyboard(slot)) >= strength(old(self).keyboard(slot)) by {
                    lemma_key_summary_prefix(self.words(), self.rows(), old(self).words(), old(self).rows(), slot, cur);
                }
            }
            return;
        }
        self.current_attempt += 1;
        if self.current_attempt >= MAX_ATTEMPTS {
            self.status = GameStatus::Lost;
        }
        proof {
            assert forall|slot: int|
                strength(#[trigger] self.keyboard(slot)) >= strength(old(self).keyboard(slot)) by {
                lemma_key_summary_prefix(self.words(), self.rows(), old(self).words(), old(self).rows(), slot, cur);
            }
        }
    }

    /// Best feedback known for each key `A` to `Z` over the finalized attempts;
    /// a key that no finalized attempt holds stays `Unused`.
    pub fn get_keyboard_status(&self) -> (r: [LetterStatus; KEY_COUNT])
        requires
            self.wf(),
        ensures
            forall|slot: int| 0 <= slot < KEY_COUNT ==> r@[slot] == self.keyboard(slot),
    {
        let mut keys = [LetterStatus::Unused; KEY_COUNT];
        let max_attempt = if self.current_attempt < MAX_ATTEMPTS {
            self.current_attempt
        } else {
            MAX_ATTEMPTS
        };
        let mut a: usize = 0;
        while a < max_attempt
            invariant
                self.wf(),
                max_attempt == self.current_attempt,
                a <= max_attempt,
                forall|slot: int|
                    0 <= slot < KEY_COUNT ==> keys@[slot] == key_summary(self.words(), self.rows(), slot, a as int),
            decreases max_attempt - a,
        {
            let word = &self.attempts[a];
            let ghost w = self.words()[a as int];
            let ghost row = self.rows()[a as int];
            let mut k: usize = 0;
            while k < word.len()
                invariant
                    self.wf(),
                    a < max_attempt,
                    max_attempt == self.current_attempt,
                    w == word@,
                    w.len() <= WORD_LENGTH,
                    row == self.letter_statuses@[a as int]@,
                    k <= w.len(),
                    forall|slot: int|
                        0 <= slot < KEY_COUNT ==> keys@[slot] == stronger(
                            key_summary(self.words(), self.rows(), slot, a as int),
                            best_in_word(w, row, slot, k as int),
                        ),
                decreases w.len() - k,
            {
                let letter = word[k];
                if 'A' <= letter && letter <= 'Z' {
                    let idx = (letter as u32 - 'A' as u32) as usize;
                    let current = self.letter_statuses[a][k];
                    keys[idx] = keys[idx].max_strength(current);
                    assert(on_key(letter, idx as int));
                }
                proof {
                    assert forall|slot: int| 0 <= slot < KEY_COUNT && slot != (letter as int) - ('A' as int) implies
                        !on_key(letter, slot) by {}
                }
                k += 1;
            }
            a += 1;
        }
        keys
    }
}

/// Outside play, typing and deleting change nothing; while playing, typing a
/// letter into an attempt with room for it and then deleting gives back the
/// attempts one started from.
pub proof fn lemma_type_then_erase(g: Game, h: Game, c: char)
    requires
        g.wf(),
        h.words() == g.typed(c),
        h.same_but_words(&g),
        g.status != GameStatus::Playing || g.current_word().len() < WORD_LENGTH,
    ensures
        g.status != GameStatus::Playing ==> g.typed(c) == g.words() && g.erased() == g.words(),
        h.erased() == g.words(),
{
    if g.status == GameStatus::Playing {
        assert(h.current_word() == g.current_word().push(c));
        assert(g.current_word().push(c).drop_last() =~= g.current_word());
        assert(h.erased() =~= g.words());
    }
}

proof fn lemma_misses_prefix(games: Seq<Game>, k: int)
    requires
        games.len() == MAX_ATTEMPTS + 1,
        games[0].is_fresh(),
        forall|i: int|
            0 <= i < MAX_ATTEMPTS ==> {
                &&& (#[trigger] games[i + 1]).submitted_from(&games[i])
                &&& games[i].current_word().len() == WORD_LENGTH
                &&& games[i].current_word() != games[i].target()
            },
        0 <= k <= MAX_ATTEMPTS,
    ensures
        games[k].current_attempt == k,
        games[k].status == if k == MAX_ATTEMPTS {
            GameStatus::Lost
        } else {
            GameStatus::Playing
        },
    decreases k,
{
    if k > 0 {
        lemma_misses_prefix(games, k - 1);
        assert(games[(k - 1) + 1].submitted_from(&games[k - 1]));
    }
}

/// A game started afresh and given `MAX_ATTEMPTS` full guesses in a row, none
/// equal to the target, ends lost with every attempt used.
pub proof fn lemma_all_misses_lose(games: Seq<Game>)
    requires
        games.len() == MAX_ATTEMPTS + 1,
        games[0].is_fresh(),
        forall|i: int|
            0 <= i < MAX_ATTEMPTS ==> {
                &&& (#[trigger] games[i + 1]).submitted_from(&games[i])
                &&& games[i].current_word().len() == WORD_LENGTH
                &&& games[i].current_word() != games[i].target()
            },
    ensures
        games[MAX_ATTEMPTS as int].status == GameStatus::Lost,
        games[MAX_ATTEMPTS as int].current_attempt == MAX_ATTEMPTS,
{
    lemma_misses_prefix(games, MAX_ATTEMPTS as int);
}

} // verus!
