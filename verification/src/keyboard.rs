//! The keyboard: for each letter of the alphabet, the strongest mark that
//! any guess of the round has earned on it.

use vstd::prelude::*;
use crate::feedback::{ABSENT, CORRECT, PRESENT};
use crate::letters::{byte_slot, is_word, slot, word_bytes};

verus! {

/// Strength of a mark: correct outweighs present, present outweighs absent,
/// and absent outweighs every character that is no mark.
pub open spec fn weight(m: char) -> int {
    if m == CORRECT {
        3
    } else if m == PRESENT {
        2
    } else if m == ABSENT {
        1
    } else {
        0
    }
}

/// The mark of a given positive strength.
pub open spec fn mark_of(w: int) -> char {
    if w >= 3 {
        CORRECT
    } else if w == 2 {
        PRESENT
    } else {
        ABSENT
    }
}

/// The greatest strength among the marks that `state` gives to the letter of
/// slot `l` in `guess`, below position `n`; `0` if the letter does not occur.
pub open spec fn best_weight(guess: Seq<char>, state: Seq<char>, l: int, n: int) -> int
    decreases n,
{
    if n <= 0 {
        0
    } else {
        let rest = best_weight(guess, state, l, n - 1);
        if slot(guess[n - 1]) == l && weight(state[n - 1]) > rest {
            weight(state[n - 1])
        } else {
            rest
        }
    }
}

/// What a key shows after a turn: the strongest mark of its letter in that
/// turn if that outweighs what the key showed before, and else what it
/// showed before.
pub open spec fn key_after(cur: char, guess: Seq<char>, state: Seq<char>, l: int, n: int) -> char {
    if best_weight(guess, state, l, n) > weight(cur) {
        mark_of(best_weight(guess, state, l, n))
    } else {
        cur
    }
}

/// Strength of a mark.
fn weight_of(m: char) -> (w: u8)
    ensures
        w == weight(m),
{
    if m == CORRECT {
        3
    } else if m == PRESENT {
        2
    } else if m == ABSENT {
        1
    } else {
        0
    }
}

/// Brings the keyboard up to date with one turn.
///
/// Each key keeps the strongest mark seen so far for its letter. A key whose
/// letter the guess does not hold stays as it is, and no key ever moves to a
/// weaker mark.
pub fn keyboard_state_update(keyboard_state: &mut [char; 26], guess: &str, state: [char; 5])
    requires
        is_word(guess@),
    ensures
        forall|l: int|
            0 <= l < 26 ==> (#[trigger] final(keyboard_state)@[l]) == key_after(
                old(keyboard_state)@[l],
                guess@,
                state@,
                l,
                5,
            ),
{
    let g = word_bytes(guess);
    let mut i: usize = 0;
    while i < 5
        invariant
            0 <= i <= 5,
            is_word(guess@),
            g@.len() == 5,
            forall|k: int| 0 <= k < 5 ==> (#[trigger] g@[k]) as char == guess@[k],
            forall|l: int|
                0 <= l < 26 ==> (#[trigger] keyboard_state@[l]) == key_after(
                    old(keyboard_state)@[l],
                    guess@,
                    state@,
                    l,
                    i as int,
                ),
        decreases 5 - i,
    {
        let index = byte_slot(g[i]);
        let new_state = state[i];
        if weight_of(new_state) > weight_of(keyboard_state[index]) {
            keyboard_state[index] = new_state;
        }
        proof {
            lemma_best_weight_range(guess@, state@, index as int, i as int);
        }
        i = i + 1;
    }
}

/// The greatest strength is that of a mark, or `0`.
proof fn lemma_best_weight_range(guess: Seq<char>, state: Seq<char>, l: int, n: int)
    ensures
        0 <= best_weight(guess, state, l, n) <= 3,
    decreases n,
{
    if n > 0 {
        lemma_best_weight_range(guess, state, l, n - 1);
    }
}

/// No key moves to a weaker mark, and the key of a letter that the guess
/// does not hold stays as it is.
pub proof fn lemma_key_never_weakens(cur: char, guess: Seq<char>, state: Seq<char>, l: int)
    ensures
        weight(key_after(cur, guess, state, l, 5)) >= weight(cur),
        (forall|j: int| 0 <= j < 5 ==> slot(#[trigger] guess[j]) != l) ==> key_after(
            cur,
            guess,
            state,
            l,
            5,
        ) == cur,
{
    lemma_best_weight_range(guess, state, l, 5);
    reveal_with_fuel(best_weight, 6);
}

} // verus!
