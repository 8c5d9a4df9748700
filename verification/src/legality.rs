//! Legality of a guess: membership in the list of acceptable words and, in
//! hard mode, agreement with the feedback of every earlier turn.

use vstd::prelude::*;
use crate::feedback::{hit, occurs, CORRECT, PRESENT};
use crate::letters::{byte_slot, fold, fold_char, folded, is_word, slot, slots_of, word_bytes};
use crate::order::listed;

verus! {

/// A history that hard mode can be checked against: every guess is a word
/// and has its feedback.
pub open spec fn history_ok(guesses: Seq<String>, states: Seq<[char; 5]>) -> bool {
    &&& guesses.len() <= states.len()
    &&& forall|i: int| 0 <= i < guesses.len() ==> is_word((#[trigger] guesses[i])@)
}

/// The guess repeats every letter that the feedback `fb` marked correct in
/// the earlier guess `past`, at the same position.
pub open spec fn keeps_correct(guess: Seq<char>, past: Seq<char>, fb: Seq<char>) -> bool {
    forall|j: int| 0 <= j < 5 && #[trigger] fb[j] == CORRECT ==> hit(guess, past, j)
}

/// How often the feedback `fb` marked the letter of slot `l` present in the
/// earlier guess `past`, below position `n`.
pub open spec fn demanded(past: Seq<char>, fb: Seq<char>, l: int, n: int) -> nat
    decreases n,
{
    if n <= 0 {
        0
    } else {
        demanded(past, fb, l, n - 1) + if fb[n - 1] == PRESENT && slot(past[n - 1]) == l {
            1nat
        } else {
            0nat
        }
    }
}

/// The guess holds every letter at least as often as the feedback `fb`
/// marked it present in the earlier guess `past`.
pub open spec fn keeps_present(guess: Seq<char>, past: Seq<char>, fb: Seq<char>) -> bool {
    forall|l: int| 0 <= l < 26 ==> occurs(guess, l, 5) >= #[trigger] demanded(past, fb, l, 5)
}

/// The guess agrees with one earlier turn.
pub open spec fn obeys(guess: Seq<char>, past: Seq<char>, fb: Seq<char>) -> bool {
    keeps_correct(guess, past, fb) && keeps_present(guess, past, fb)
}

/// The guess agrees with every earlier turn, each taken by itself.
pub open spec fn obeys_all(guess: Seq<char>, guesses: Seq<String>, states: Seq<[char; 5]>) -> bool {
    forall|i: int| 0 <= i < guesses.len() ==> obeys(guess, (#[trigger] guesses[i])@, states[i]@)
}

/// The rule that always holds: five characters whose lowercase form is an
/// acceptable word.
pub open spec fn admissible(guess: Seq<char>, acceptable: Seq<String>) -> bool {
    guess.len() == 5 && listed(acceptable, folded(guess))
}

/// The legal guesses.
pub open spec fn legal(
    guess: Seq<char>,
    hard: bool,
    guesses: Seq<String>,
    states: Seq<[char; 5]>,
    acceptable: Seq<String>,
) -> bool {
    admissible(guess, acceptable) && (hard ==> obeys_all(guess, guesses, states))
}

/// Whether the word `w` is the lowercase form of the five characters of
/// `guess`.
fn is_folded_form(w: &str, guess: &str) -> (r: bool)
    requires
        guess@.len() == 5,
    ensures
        r == (w@ == folded(guess@)),
{
    if w.unicode_len() != 5 {
        return false;
    }
    let mut j: usize = 0;
    while j < 5
        invariant
            0 <= j <= 5,
            guess@.len() == 5,
            w@.len() == 5,
            forall|k: int| 0 <= k < j ==> w@[k] == fold(#[trigger] guess@[k]),
        decreases 5 - j,
    {
        if w.get_char(j) != fold_char(guess.get_char(j)) {
            assert(w@[j as int] != folded(guess@)[j as int]);
            return false;
        }
        j = j + 1;
    }
    assert(w@ =~= folded(guess@));
    true
}

/// Whether the lowercase form of the five characters of `guess` is in the
/// list.
fn is_listed(acceptable_words: &[String], guess: &str) -> (r: bool)
    requires
        guess@.len() == 5,
    ensures
        r == listed(acceptable_words@, folded(guess@)),
{
    let mut i: usize = 0;
    while i < acceptable_words.len()
        invariant
            0 <= i <= acceptable_words@.len(),
            guess@.len() == 5,
            forall|k: int| 0 <= k < i ==> (#[trigger] acceptable_words@[k])@ != folded(guess@),
        decreases acceptable_words@.len() - i,
    {
        if is_folded_form(acceptable_words[i].as_str(), guess) {
            return true;
        }
        i = i + 1;
    }
    false
}

/// How often each letter stands in the five characters whose slots are
/// `slots`.
fn letter_counts(slots: &[usize; 5], Ghost(s): Ghost<Seq<char>>) -> (have: [u8; 26])
    requires
        forall|j: int| 0 <= j < 5 ==> (#[trigger] slots@[j]) == slot(s[j]),
    ensures
        forall|l: int| 0 <= l < 26 ==> (#[trigger] have@[l]) == occurs(s, l, 5),
{
    let mut have: [u8; 26] = [0u8;26];
    let mut j: usize = 0;
    while j < 5
        invariant
            0 <= j <= 5,
            forall|k: int| 0 <= k < 5 ==> (#[trigger] slots@[k]) == slot(s[k]),
            forall|l: int| 0 <= l < 26 ==> (#[trigger] have@[l]) == occurs(s, l, j as int),
            forall|l: int| 0 <= l < 26 ==> (#[trigger] have@[l]) <= j,
        decreases 5 - j,
    {
        let l = slots[j];
        if l < 26 {
            have[l] = have[l] + 1;
        }
        j = j + 1;
    }
    have
}

/// Whether a guess agrees with one earlier turn. `slots` and `have` describe
/// the guess `s`: the slot of each of its characters and the count of each
/// letter.
fn obeys_turn(
    slots: &[usize; 5],
    have: &[u8; 26],
    past: &str,
    fb: &[char; 5],
    Ghost(s): Ghost<Seq<char>>,
) -> (r: bool)
    requires
        is_word(past@),
        forall|j: int| 0 <= j < 5 ==> (#[trigger] slots@[j]) == slot(s[j]),
        forall|l: int| 0 <= l < 26 ==> (#[trigger] have@[l]) == occurs(s, l, 5),
    ensures
        r == obeys(s, past@, fb@),
{
    let p = word_bytes(past);
    let mut need: [u8; 26] = [0u8;26];
    let mut j: usize = 0;
    while j < 5
        invariant
            0 <= j <= 5,
            is_word(past@),
            p@.len() == 5,
            forall|k: int| 0 <= k < 5 ==> (#[trigger] p@[k]) as char == past@[k],
            forall|k: int| 0 <= k < 5 ==> (#[trigger] slots@[k]) == slot(s[k]),
            forall|k: int| 0 <= k < j && #[trigger] fb@[k] == CORRECT ==> hit(s, past@, k),
            forall|l: int| 0 <= l < 26 ==> (#[trigger] need@[l]) == demanded(past@, fb@, l, j as int),
            forall|l: int| 0 <= l < 26 ==> (#[trigger] need@[l]) <= j,
        decreases 5 - j,
    {
        let l = byte_slot(p[j]);
        if fb[j] == CORRECT {
            if slots[j] != l {
                assert(!hit(s, past@, j as int));
                return false;
            }
        } else if fb[j] == PRESENT {
            need[l] = need[l] + 1;
        }
        j = j + 1;
    }
    let mut l: usize = 0;
    while l < 26
        invariant
            0 <= l <= 26,
            forall|k: int| 0 <= k < 26 ==> (#[trigger] have@[k]) == occurs(s, k, 5),
            forall|k: int| 0 <= k < 26 ==> (#[trigger] need@[k]) == demanded(past@, fb@, k, 5),
            forall|k: int| 0 <= k < l ==> occurs(s, k, 5) >= #[trigger] demanded(past@, fb@, k, 5),
        decreases 26 - l,
    {
        if have[l] < need[l] {
            assert(occurs(s, l as int, 5) < demanded(past@, fb@, l as int, 5));
            return false;
        }
        l = l + 1;
    }
    true
}

/// Decides whether a guess may be played.
///
/// A guess is always required to have five characters and, in lowercase, to
/// be one of the acceptable words. With `diff_mode` set it must also agree
/// with every earlier turn: repeat each letter that was marked correct at its
/// position, and hold each letter at least as often as that turn marked it
/// present.
pub fn is_valid(
    guess: &str,
    diff_mode: bool,
    guess_history: &[String],
    state_history: &[[char; 5]],
    acceptable_words: &[String],
) -> (ok: bool)
    requires
        diff_mode ==> history_ok(guess_history@, state_history@),
    ensures
        ok == legal(guess@, diff_mode, guess_history@, state_history@, acceptable_words@),
{
    if guess.unicode_len() != 5 {
        return false;
    }
    if !is_listed(acceptable_words, guess) {
        return false;
    }
    if !diff_mode {
        return true;
    }
    let slots = slots_of(guess);
    let have = letter_counts(&slots, Ghost(guess@));
    let mut i: usize = 0;
    while i < guess_history.len()
        invariant
            0 <= i <= guess_history@.len(),
            history_ok(guess_history@, state_history@),
            admissible(guess@, acceptable_words@),
            diff_mode,
            forall|j: int| 0 <= j < 5 ==> (#[trigger] slots@[j]) == slot(guess@[j]),
            forall|l: int| 0 <= l < 26 ==> (#[trigger] have@[l]) == occurs(guess@, l, 5),
            forall|k: int|
                0 <= k < i ==> obeys(guess@, (#[trigger] guess_history@[k])@, state_history@[k]@),
        decreases guess_history@.len() - i,
    {
        if !obeys_turn(
            &slots,
            &have,
            guess_history[i].as_str(),
            &state_history[i],
            Ghost(guess@),
        ) {
            assert(!obeys(guess@, guess_history@[i as int]@, state_history@[i as int]@));
            return false;
        }
        i = i + 1;
    }
    true
}

/// Hard mode only ever takes guesses away: whatever is legal with it is
/// legal without it, for the same history and the same acceptable words.
pub proof fn lemma_hard_mode_restricts(
    guess: Seq<char>,
    guesses: Seq<String>,
    states: Seq<[char; 5]>,
    acceptable: Seq<String>,
)
    ensures
        legal(guess, true, guesses, states, acceptable) ==> legal(
            guess,
            false,
            guesses,
            states,
            acceptable,
        ),
{
}

} // verus!
