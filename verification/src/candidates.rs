//! The candidate words: what is left of the acceptable words once every
//! recorded turn has been held against them.

use vstd::prelude::*;
use crate::feedback::{color_state, score};
use crate::letters::is_word;
use crate::order::{ascending, insert_word, lemma_ascending_unique, lemma_texts_listed, listed, texts};

verus! {

/// Every string of the list is a word.
pub open spec fn all_words(words: Seq<String>) -> bool {
    forall|i: int| 0 <= i < words.len() ==> is_word((#[trigger] words[i])@)
}

/// Number of recorded turns: a guess counts as far as it has its feedback.
pub open spec fn turns(guesses: Seq<String>, states: Seq<[char; 5]>) -> int {
    if guesses.len() <= states.len() {
        guesses.len() as int
    } else {
        states.len() as int
    }
}

/// Every recorded guess is a word.
pub open spec fn guesses_ok(guesses: Seq<String>, states: Seq<[char; 5]>) -> bool {
    forall|i: int| 0 <= i < turns(guesses, states) ==> is_word((#[trigger] guesses[i])@)
}

/// The word `w` could be the answer: every recorded guess, scored against
/// it, earns the feedback that was recorded.
pub open spec fn consistent(w: Seq<char>, guesses: Seq<String>, states: Seq<[char; 5]>) -> bool {
    forall|i: int|
        0 <= i < turns(guesses, states) ==> score((#[trigger] guesses[i])@, w) == states[i]@
}

/// The word `w` is an acceptable word that could be the answer.
pub open spec fn remains(
    w: Seq<char>,
    acceptable: Seq<String>,
    guesses: Seq<String>,
    states: Seq<[char; 5]>,
) -> bool {
    listed(acceptable, w) && consistent(w, guesses, states)
}

/// `out` is the list of candidates: exactly the acceptable words that could
/// be the answer, each once, in dictionary order.
pub open spec fn is_remaining(
    out: Seq<String>,
    acceptable: Seq<String>,
    guesses: Seq<String>,
    states: Seq<[char; 5]>,
) -> bool {
    &&& ascending(texts(out))
    &&& forall|w: Seq<char>| #[trigger] listed(out, w) <==> remains(w, acceptable, guesses, states)
}

/// Whether two feedbacks hold the same marks.
fn same_marks(a: &[char; 5], b: &[char; 5]) -> (r: bool)
    ensures
        r == (a@ == b@),
{
    let mut j: usize = 0;
    while j < 5
        invariant
            0 <= j <= 5,
            forall|k: int| 0 <= k < j ==> a@[k] == b@[k],
        decreases 5 - j,
    {
        if a[j] != b[j] {
            return false;
        }
        j = j + 1;
    }
    assert(a@ =~= b@);
    true
}

/// Whether a word could be the answer, given the recorded turns.
pub fn is_consistent(word: &str, guess_history: &[String], state_history: &[[char; 5]]) -> (r: bool)
    requires
        is_word(word@),
        guesses_ok(guess_history@, state_history@),
    ensures
        r == consistent(word@, guess_history@, state_history@),
{
    let mut i: usize = 0;
    while i < guess_history.len() && i < state_history.len()
        invariant
            0 <= i <= turns(guess_history@, state_history@),
            is_word(word@),
            guesses_ok(guess_history@, state_history@),
            forall|k: int|
                0 <= k < i ==> score((#[trigger] guess_history@[k])@, word@) == state_history@[k]@,
        decreases turns(guess_history@, state_history@) - i,
    {
        let fb = color_state(guess_history[i].as_str(), word);
        if !same_marks(&fb, &state_history[i]) {
            assert(score(guess_history@[i as int]@, word@) != state_history@[i as int]@);
            return false;
        }
        i = i + 1;
    }
    true
}

/// The acceptable words that are consistent with every recorded turn, each
/// once, in dictionary order.
///
/// A turn is a guess together with the feedback it earned; a word stays if
/// every guess, scored against it, earns that same feedback. The result does
/// not depend on the order of the turns. It is empty where the recorded
/// feedback agrees with no acceptable word.
pub fn find_remaining_words(
    acceptable_words: &[String],
    guess_history: &[String],
    state_history: &[[char; 5]],
) -> (out: Vec<String>)
    requires
        all_words(acceptable_words@),
        guesses_ok(guess_history@, state_history@),
    ensures
        is_remaining(out@, acceptable_words@, guess_history@, state_history@),
        all_words(out@),
        out@.len() <= acceptable_words@.len(),
{
    let mut out: Vec<String> = Vec::new();
    let mut i: usize = 0;
    while i < acceptable_words.len()
        invariant
            0 <= i <= acceptable_words@.len(),
            all_words(acceptable_words@),
            guesses_ok(guess_history@, state_history@),
            ascending(texts(out@)),
            out@.len() <= i,
            forall|w: Seq<char>| #[trigger]
                listed(out@, w) <==> (listed(acceptable_words@.take(i as int), w) && consistent(
                    w,
                    guess_history@,
                    state_history@,
                )),
        decreases acceptable_words@.len() - i,
    {
        let word = &acceptable_words[i];
        let ghost seen = acceptable_words@.take(i as int);
        let ghost next = acceptable_words@.take(i + 1);
        let ghost before = out@;
        let keep = is_consistent(word.as_str(), guess_history, state_history);
        if keep {
            insert_word(&mut out, word);
        }
        proof {
            assert forall|w: Seq<char>| #[trigger]
                listed(next, w) <==> (listed(seen, w) || w == word@) by {
                if listed(next, w) {
                    let k = choose|k: int| 0 <= k < next.len() && (#[trigger] next[k])@ == w;
                    if k < i {
                        assert(seen[k]@ == w);
                    }
                }
                if listed(seen, w) {
                    let k = choose|k: int| 0 <= k < seen.len() && (#[trigger] seen[k])@ == w;
                    assert(next[k]@ == w);
                }
                if w == word@ {
                    assert(next[i as int]@ == w);
                }
            }
        }
        i = i + 1;
    }
    assert(acceptable_words@.take(i as int) =~= acceptable_words@);
    proof {
        lemma_remaining_are_listed(out@, acceptable_words@, guess_history@, state_history@);
    }
    out
}

/// Every candidate is one of the acceptable words, so the candidates of a
/// list of words are words.
pub proof fn lemma_remaining_are_listed(
    out: Seq<String>,
    acceptable: Seq<String>,
    guesses: Seq<String>,
    states: Seq<[char; 5]>,
)
    requires
        is_remaining(out, acceptable, guesses, states),
    ensures
        forall|i: int| 0 <= i < out.len() ==> listed(acceptable, (#[trigger] out[i])@),
        all_words(acceptable) ==> all_words(out),
{
    assert forall|i: int| 0 <= i < out.len() implies listed(acceptable, (#[trigger] out[i])@) by {
        assert(listed(out, out[i]@));
    }
    if all_words(acceptable) {
        assert forall|i: int| 0 <= i < out.len() implies is_word((#[trigger] out[i])@) by {
            let w = out[i]@;
            assert(listed(acceptable, w));
            let k = choose|k: int| 0 <= k < acceptable.len() && (#[trigger] acceptable[k])@ == w;
        }
    }
}

/// Reducing the candidates once more with the same turns changes nothing:
/// the candidates of a list of candidates are that list.
pub proof fn lemma_remaining_idempotent(
    acceptable: Seq<String>,
    guesses: Seq<String>,
    states: Seq<[char; 5]>,
    first: Seq<String>,
    second: Seq<String>,
)
    requires
        is_remaining(first, acceptable, guesses, states),
        is_remaining(second, first, guesses, states),
    ensures
        texts(second) == texts(first),
{
    assert forall|w: Seq<char>| texts(second).contains(w) <==> texts(first).contains(w) by {
        lemma_texts_listed(first, w);
        lemma_texts_listed(second, w);
    }
    lemma_ascending_unique(texts(second), texts(first));
}

/// The history holds the turn of the guess `g` with the feedback `fb`.
pub open spec fn has_turn(
    guesses: Seq<String>,
    states: Seq<[char; 5]>,
    g: Seq<char>,
    fb: Seq<char>,
) -> bool {
    exists|i: int|
        0 <= i < turns(guesses, states) && (#[trigger] guesses[i])@ == g && states[i]@ == fb
}

/// Every turn of the first history is a turn of the second.
pub open spec fn turns_within(
    guesses: Seq<String>,
    states: Seq<[char; 5]>,
    others: Seq<String>,
    other_states: Seq<[char; 5]>,
) -> bool {
    forall|i: int|
        0 <= i < turns(guesses, states) ==> has_turn(
            others,
            other_states,
            (#[trigger] guesses[i])@,
            states[i]@,
        )
}

/// A word that is consistent with a history is consistent with every
/// history whose turns are among those of the first.
proof fn lemma_fewer_turns(
    w: Seq<char>,
    guesses: Seq<String>,
    states: Seq<[char; 5]>,
    others: Seq<String>,
    other_states: Seq<[char; 5]>,
)
    requires
        turns_within(others, other_states, guesses, states),
        consistent(w, guesses, states),
    ensures
        consistent(w, others, other_states),
{
    assert forall|i: int| 0 <= i < turns(others, other_states) implies score(
        (#[trigger] others[i])@,
        w,
    ) == other_states[i]@ by {
        assert(has_turn(guesses, states, others[i]@, other_states[i]@));
        let k = choose|k: int|
            0 <= k < turns(guesses, states) && (#[trigger] guesses[k])@ == others[i]@ && states[k]@
                == other_states[i]@;
    }
}

/// The candidates do not depend on the order of the turns, nor on how often
/// a turn is recorded: two histories that hold the same turns leave the same
/// candidates.
pub proof fn lemma_turn_order_is_free(
    out: Seq<String>,
    acceptable: Seq<String>,
    guesses: Seq<String>,
    states: Seq<[char; 5]>,
    others: Seq<String>,
    other_states: Seq<[char; 5]>,
)
    requires
        turns_within(guesses, states, others, other_states),
        turns_within(others, other_states, guesses, states),
        is_remaining(out, acceptable, guesses, states),
    ensures
        is_remaining(out, acceptable, others, other_states),
{
    assert forall|w: Seq<char>| #[trigger]
        listed(out, w) <==> remains(w, acceptable, others, other_states) by {
        if consistent(w, guesses, states) {
            lemma_fewer_turns(w, guesses, states, others, other_states);
        }
        if consistent(w, others, other_states) {
            lemma_fewer_turns(w, others, other_states, guesses, states);
        }
    }
}

} // verus!
