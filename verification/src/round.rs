//! A round: one answer, the guesses made at it and what they earned.

use vstd::prelude::*;
use crate::candidates::all_words;
use crate::feedback::{color_state, score, CORRECT};
use crate::keyboard::{key_after, keyboard_state_update};
use crate::legality::{is_valid, legal};
use crate::letters::{ascii_lowercase, folded, is_word, lemma_case_keeps_word};
use crate::order::{listed, texts};

verus! {

/// Number of guesses that a round allows.
pub const MAX_ATTEMPTS: usize = 6;

/// What a key shows before its letter has been guessed.
pub const UNTRIED: char = 'X';

/// The state of a round.
#[derive(Debug)]
pub struct Round {
    /// The word to be found.
    pub answer: String,
    /// The guesses played so far, in lowercase.
    pub guess_history: Vec<String>,
    /// The feedback of each guess.
    pub state_history: Vec<[char; 5]>,
    /// The strongest mark of each letter so far.
    pub keyboard_state: [char; 26],
}

/// How a round stands after a guess.
#[derive(Clone, Copy, PartialEq, Eq, Structural, Debug)]
pub enum Outcome {
    /// The guess may not be played; the round is as it was.
    Invalid,
    /// The guess is the answer.
    Won,
    /// The guess is not the answer and was the last one allowed.
    Lost,
    /// The guess is not the answer and the round goes on.
    Open,
}

/// The feedback of a guess that is the answer.
pub open spec fn all_correct(fb: Seq<char>) -> bool {
    fb.len() == 5 && forall|i: int| 0 <= i < 5 ==> fb[i] == CORRECT
}

/// How a round stands after a legal guess that earned `fb` and brought the
/// number of guesses to `attempts`.
pub open spec fn outcome_of(fb: Seq<char>, attempts: int) -> Outcome {
    if all_correct(fb) {
        Outcome::Won
    } else if attempts >= MAX_ATTEMPTS {
        Outcome::Lost
    } else {
        Outcome::Open
    }
}

/// Whether a feedback is correct in every position.
pub fn is_all_correct(fb: &[char; 5]) -> (r: bool)
    ensures
        r == all_correct(fb@),
{
    let mut i: usize = 0;
    while i < 5
        invariant
            0 <= i <= 5,
            forall|k: int| 0 <= k < i ==> fb@[k] == CORRECT,
        decreases 5 - i,
    {
        if fb[i] != CORRECT {
            return false;
        }
        i = i + 1;
    }
    true
}

impl Round {
    /// A round is well formed if its answer and its guesses are words and
    /// every guess has its feedback.
    pub open spec fn wf(&self) -> bool {
        &&& is_word(self.answer@)
        &&& self.guess_history@.len() == self.state_history@.len()
        &&& all_words(self.guess_history@)
    }

    /// Starts a round: no guess yet, and every key untried.
    pub fn new(answer: String) -> (r: Round)
        requires
            is_word(answer@),
        ensures
            r.wf(),
            r.answer == answer,
            r.guess_history@.len() == 0,
            forall|l: int| 0 <= l < 26 ==> (#[trigger] r.keyboard_state@[l]) == UNTRIED,
    {
        Round {
            answer,
            guess_history: Vec::new(),
            state_history: Vec::new(),
            keyboard_state: [UNTRIED;26],
        }
    }

    /// Number of guesses played.
    pub fn attempts(&self) -> (n: usize)
        ensures
            n == self.guess_history@.len(),
    {
        self.guess_history.len()
    }

    /// Plays a guess.
    ///
    /// A guess that is not legal leaves the round as it was. A legal guess is
    /// recorded in lowercase together with its feedback against the answer,
    /// and the keyboard is brought up to date. The round is won if the guess
    /// is the answer, lost if the last guess allowed has missed it, and open
    /// otherwise.
    pub fn play(&mut self, guess: &str, diff_mode: bool, acceptable_words: &[String]) -> (r:
        Outcome)
        requires
            old(self).wf(),
            all_words(acceptable_words@),
        ensures
            final(self).wf(),
            final(self).answer == old(self).answer,
            !legal(
                guess@,
                diff_mode,
                old(self).guess_history@,
                old(self).state_history@,
                acceptable_words@,
            ) ==> r == Outcome::Invalid && *final(self) == *old(self),
            legal(
                guess@,
                diff_mode,
                old(self).guess_history@,
                old(self).state_history@,
                acceptable_words@,
            ) ==> {
                let fb = score(folded(guess@), old(self).answer@);
                &&& texts(final(self).guess_history@) == texts(old(self).guess_history@).push(
                    folded(guess@),
                )
                &&& final(self).state_history@.len() == old(self).state_history@.len() + 1
                &&& forall|i: int|
                    0 <= i < old(self).state_history@.len() ==> final(self).state_history@[i]
                        == old(self).state_history@[i]
                &&& final(self).state_history@.last()@ == fb
                &&& forall|l: int|
                    0 <= l < 26 ==> (#[trigger] final(self).keyboard_state@[l]) == key_after(
                        old(self).keyboard_state@[l],
                        folded(guess@),
                        fb,
                        l,
                        5,
                    )
                &&& r == outcome_of(fb, final(self).guess_history@.len() as int)
            },
    {
        if !is_valid(
            guess,
            diff_mode,
            self.guess_history.as_slice(),
            self.state_history.as_slice(),
            acceptable_words,
        ) {
            return Outcome::Invalid;
        }
        let word = ascii_lowercase(guess);
        proof {
            lemma_case_keeps_word(guess@);
            assert(listed(acceptable_words@, word@));
            let k = choose|k: int|
                0 <= k < acceptable_words@.len() && (#[trigger] acceptable_words@[k])@ == word@;
            assert(is_word(word@));
        }
        let state = color_state(word.as_str(), self.answer.as_str());
        keyboard_state_update(&mut self.keyboard_state, word.as_str(), state);
        self.guess_history.push(word);
        self.state_history.push(state);
        assert(texts(self.guess_history@) =~= texts(old(self).guess_history@).push(folded(guess@)));
        if is_all_correct(&state) {
            Outcome::Won
        } else if self.guess_history.len() >= MAX_ATTEMPTS {
            Outcome::Lost
        } else {
            Outcome::Open
        }
    }
}

} // verus!
