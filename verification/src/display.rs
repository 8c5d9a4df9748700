//! What is shown of a round: the colour of each letter of a guess and of
//! each key, and how much of a long list of words.

use vstd::prelude::*;
use vstd::slice::slice_subrange;
use crate::feedback::{ABSENT, CORRECT, PRESENT};

verus! {

/// The colour in which a letter is shown.
#[derive(Clone, Copy, PartialEq, Eq, Structural, Debug)]
pub enum Tint {
    /// The colour of a correct letter.
    Green,
    /// The colour of a present letter.
    Yellow,
    /// The colour of an absent letter.
    Red,
    /// The colour of a letter that has no mark.
    White,
}

/// At most this many words of a list are shown.
pub const LISTING_LIMIT: usize = 50;

/// The colour of a mark.
pub open spec fn tint(mark: char) -> Tint {
    if mark == CORRECT {
        Tint::Green
    } else if mark == PRESENT {
        Tint::Yellow
    } else if mark == ABSENT {
        Tint::Red
    } else {
        Tint::White
    }
}

/// The capital letter of a key.
pub open spec fn key_letter(l: int) -> char {
    ('A' as u8 + l) as char
}

/// The colour of a mark.
pub fn tint_of(mark: char) -> (t: Tint)
    ensures
        t == tint(mark),
{
    if mark == CORRECT {
        Tint::Green
    } else if mark == PRESENT {
        Tint::Yellow
    } else if mark == ABSENT {
        Tint::Red
    } else {
        Tint::White
    }
}

/// The letters of a guess, each with the colour of its mark.
pub fn tinted_guess(state: [char; 5], guess: &str) -> (r: Vec<(char, Tint)>)
    requires
        guess@.len() <= 5,
    ensures
        r@.len() == guess@.len(),
        forall|i: int|
            0 <= i < r@.len() ==> (#[trigger] r@[i]) == (guess@[i], tint(state@[i])),
{
    let n = guess.unicode_len();
    let mut r: Vec<(char, Tint)> = Vec::new();
    let mut i: usize = 0;
    while i < n
        invariant
            0 <= i <= n,
            n == guess@.len(),
            n <= 5,
            r@.len() == i,
            forall|k: int| 0 <= k < i ==> (#[trigger] r@[k]) == (guess@[k], tint(state@[k])),
        decreases n - i,
    {
        r.push((guess.get_char(i), tint_of(state[i])));
        i = i + 1;
    }
    r
}

/// The keys from `A` to `Z`, each with the colour of what it shows.
pub fn tinted_keyboard(keyboard_state: &[char; 26]) -> (r: Vec<(char, Tint)>)
    ensures
        r@.len() == 26,
        forall|l: int|
            0 <= l < 26 ==> (#[trigger] r@[l]) == (key_letter(l), tint(keyboard_state@[l])),
{
    let mut r: Vec<(char, Tint)> = Vec::new();
    let mut l: u8 = 0;
    while l < 26
        invariant
            0 <= l <= 26,
            r@.len() == l,
            forall|k: int|
                0 <= k < l ==> (#[trigger] r@[k]) == (key_letter(k), tint(keyboard_state@[k])),
        decreases 26 - l,
    {
        r.push(((65u8 + l) as char, tint_of(keyboard_state[l as usize])));
        l = l + 1;
    }
    r
}

/// The words of a list that are shown: the first [`LISTING_LIMIT`], or all
/// of them where there are no more.
pub fn shown_words(words: &[String]) -> (r: &[String])
    ensures
        r@ == if words@.len() <= LISTING_LIMIT {
            words@
        } else {
            words@.subrange(0, LISTING_LIMIT as int)
        },
{
    if words.len() <= LISTING_LIMIT {
        words
    } else {
        slice_subrange(words, 0, LISTING_LIMIT)
    }
}

} // verus!
