//! Feedback: the mark that each letter of a guess earns against an answer.
//!
//! A mark is one of three characters: [`CORRECT`] for the right letter in the
//! right place, [`PRESENT`] for a letter that the answer holds elsewhere and
//! that is still to be accounted for, [`ABSENT`] for the rest.

use vstd::prelude::*;
use crate::letters::{byte_slot, is_word, slot, word_bytes};

verus! {

/// Mark of a letter that stands where the answer has it.
pub const CORRECT: char = 'G';

/// Mark of a letter that the answer holds in another place.
pub const PRESENT: char = 'Y';

/// Mark of a letter that the answer has no further use for.
pub const ABSENT: char = 'R';

/// The guess and the answer hold the same letter at position `k`.
pub open spec fn hit(g: Seq<char>, a: Seq<char>, k: int) -> bool {
    slot(g[k]) == slot(a[k])
}

/// How often the letter of slot `l` stands in the answer `a`, below position
/// `n`, without the guess `g` holding it at the same position.
pub open spec fn spare(g: Seq<char>, a: Seq<char>, l: int, n: int) -> nat
    decreases n,
{
    if n <= 0 {
        0
    } else {
        spare(g, a, l, n - 1) + if slot(a[n - 1]) == l && !hit(g, a, n - 1) {
            1nat
        } else {
            0nat
        }
    }
}

/// How often the letter of slot `l` stands in the guess `g`, below position
/// `n`, without the answer `a` holding it at the same position.
pub open spec fn pending(g: Seq<char>, a: Seq<char>, l: int, n: int) -> nat
    decreases n,
{
    if n <= 0 {
        0
    } else {
        pending(g, a, l, n - 1) + if slot(g[n - 1]) == l && !hit(g, a, n - 1) {
            1nat
        } else {
            0nat
        }
    }
}

/// The mark of position `i` of the guess `g` against the answer `a`.
///
/// A letter in its place is correct. Any other letter is present as long as
/// the answer holds more misplaced copies of it than the guess has already
/// shown to the left of `i`, and absent after that.
pub open spec fn mark(g: Seq<char>, a: Seq<char>, i: int) -> char {
    if hit(g, a, i) {
        CORRECT
    } else if pending(g, a, slot(g[i]), i) < spare(g, a, slot(g[i]), 5) {
        PRESENT
    } else {
        ABSENT
    }
}

/// The feedback of the guess `g` against the answer `a`: five marks, one for
/// each position.
pub open spec fn score(g: Seq<char>, a: Seq<char>) -> Seq<char> {
    Seq::new(5, |i: int| mark(g, a, i))
}

/// What the table of spare letters holds once the guess has shown the letter
/// of slot `l` in `n` of its misplaced positions.
spec fn left_over(g: Seq<char>, a: Seq<char>, l: int, n: int) -> int {
    if pending(g, a, l, n) < spare(g, a, l, 5) {
        spare(g, a, l, 5) - pending(g, a, l, n)
    } else {
        0
    }
}

/// Scores a guess against an answer.
///
/// A table counts, per letter, what the answer holds. The first pass marks
/// the letters that stand in their place and takes each of them out of the
/// table. The second pass hands out what the table still holds, from left
/// to right: a misplaced letter is present while the count of its letter is
/// positive, which it lowers by one, and absent otherwise.
pub fn color_state(guess: &str, answer: &str) -> (state: [char; 5])
    requires
        is_word(guess@),
        is_word(answer@),
    ensures
        state@ == score(guess@, answer@),
{
    let g = word_bytes(guess);
    let a = word_bytes(answer);
    let mut state: [char; 5] = [ABSENT;5];
    let mut counts: [u8; 26] = [0u8;26];
    let mut i: usize = 0;
    while i < 5
        invariant
            0 <= i <= 5,
            is_word(answer@),
            a@.len() == 5,
            forall|k: int| 0 <= k < 5 ==> (#[trigger] a@[k]) as char == answer@[k],
            forall|l: int| 0 <= l < 26 ==> (#[trigger] counts@[l]) == occurs(answer@, l, i as int),
            forall|l: int| 0 <= l < 26 ==> (#[trigger] counts@[l]) <= i,
        decreases 5 - i,
    {
        let s = byte_slot(a[i]);
        counts[s] = counts[s] + 1;
        i = i + 1;
    }
    i = 0;
    while i < 5
        invariant
            0 <= i <= 5,
            is_word(guess@),
            is_word(answer@),
            g@.len() == 5,
            a@.len() == 5,
            forall|k: int| 0 <= k < 5 ==> (#[trigger] g@[k]) as char == guess@[k],
            forall|k: int| 0 <= k < 5 ==> (#[trigger] a@[k]) as char == answer@[k],
            forall|l: int|
                0 <= l < 26 ==> (#[trigger] counts@[l]) == occurs(answer@, l, 5) - hits_of(
                    guess@,
                    answer@,
                    l,
                    i as int,
                ),
            forall|k: int|
                0 <= k < i ==> (#[trigger] state@[k]) == if hit(guess@, answer@, k) {
                    CORRECT
                } else {
                    ABSENT
                },
            forall|k: int| i <= k < 5 ==> (#[trigger] state@[k]) == ABSENT,
        decreases 5 - i,
    {
        let s = byte_slot(g[i]);
        if s == byte_slot(a[i]) {
            proof {
                lemma_occurs_split(guess@, answer@, s as int, 5);
                lemma_hits_grow(guess@, answer@, s as int, i + 1, 5);
            }
            state[i] = CORRECT;
            counts[s] = counts[s] - 1;
        }
        i = i + 1;
    }
    proof {
        assert forall|l: int| 0 <= l < 26 implies (#[trigger] counts@[l]) == left_over(
            guess@,
            answer@,
            l,
            0,
        ) by {
            lemma_occurs_split(guess@, answer@, l, 5);
        }
    }
    i = 0;
    while i < 5
        invariant
            0 <= i <= 5,
            is_word(guess@),
            is_word(answer@),
            g@.len() == 5,
            a@.len() == 5,
            forall|k: int| 0 <= k < 5 ==> (#[trigger] g@[k]) as char == guess@[k],
            forall|k: int| 0 <= k < 5 ==> (#[trigger] a@[k]) as char == answer@[k],
            forall|l: int|
                0 <= l < 26 ==> (#[trigger] counts@[l]) == left_over(
                    guess@,
                    answer@,
                    l,
                    i as int,
                ),
            forall|k: int| 0 <= k < i ==> (#[trigger] state@[k]) == mark(guess@, answer@, k),
            forall|k: int|
                i <= k < 5 ==> (#[trigger] state@[k]) == if hit(guess@, answer@, k) {
                    CORRECT
                } else {
                    ABSENT
                },
        decreases 5 - i,
    {
        if state[i] != CORRECT {
            let s = byte_slot(g[i]);
            if counts[s] > 0 {
                state[i] = PRESENT;
                counts[s] = counts[s] - 1;
            }
        }
        i = i + 1;
    }
    assert(state@ =~= score(guess@, answer@));
    state
}

/// How often the letter of slot `l` stands in `s` below position `n`.
pub open spec fn occurs(s: Seq<char>, l: int, n: int) -> nat
    decreases n,
{
    if n <= 0 {
        0
    } else {
        occurs(s, l, n - 1) + if slot(s[n - 1]) == l {
            1nat
        } else {
            0nat
        }
    }
}

/// Number of positions below `n` at which guess and answer hold the same
/// letter.
pub open spec fn hits(g: Seq<char>, a: Seq<char>, n: int) -> nat
    decreases n,
{
    if n <= 0 {
        0
    } else {
        hits(g, a, n - 1) + if hit(g, a, n - 1) {
            1nat
        } else {
            0nat
        }
    }
}

/// Number of positions below `n` at which the feedback `fb` holds the mark
/// `m`.
pub open spec fn marked(fb: Seq<char>, m: char, n: int) -> nat
    decreases n,
{
    if n <= 0 {
        0
    } else {
        marked(fb, m, n - 1) + if fb[n - 1] == m {
            1nat
        } else {
            0nat
        }
    }
}

/// Number of positions below `n` at which the guess `g` holds the letter of
/// slot `l` and earns a mark other than absent against the answer `a`.
pub open spec fn shown(g: Seq<char>, a: Seq<char>, l: int, n: int) -> nat
    decreases n,
{
    if n <= 0 {
        0
    } else {
        shown(g, a, l, n - 1) + if slot(g[n - 1]) == l && mark(g, a, n - 1) != ABSENT {
            1nat
        } else {
            0nat
        }
    }
}

/// The smaller of two counts.
pub open spec fn least(x: nat, y: nat) -> nat {
    if x <= y {
        x
    } else {
        y
    }
}

/// Number of positions below `n` at which guess and answer both hold the
/// letter of slot `l`.
spec fn hits_of(g: Seq<char>, a: Seq<char>, l: int, n: int) -> nat
    decreases n,
{
    if n <= 0 {
        0
    } else {
        hits_of(g, a, l, n - 1) + if slot(g[n - 1]) == l && hit(g, a, n - 1) {
            1nat
        } else {
            0nat
        }
    }
}

/// Every occurrence of a letter is either matched in place or left over, in
/// the guess as in the answer.
proof fn lemma_occurs_split(g: Seq<char>, a: Seq<char>, l: int, n: int)
    ensures
        occurs(g, l, n) == hits_of(g, a, l, n) + pending(g, a, l, n),
        occurs(a, l, n) == hits_of(g, a, l, n) + spare(g, a, l, n),
    decreases n,
{
    if n > 0 {
        lemma_occurs_split(g, a, l, n - 1);
    }
}

/// The matches in place of a letter grow with the positions looked at.
proof fn lemma_hits_grow(g: Seq<char>, a: Seq<char>, l: int, m: int, n: int)
    requires
        m <= n,
    ensures
        hits_of(g, a, l, m) <= hits_of(g, a, l, n),
    decreases n - m,
{
    if m < n {
        lemma_hits_grow(g, a, l, m, n - 1);
    }
}

/// The marks other than absent that a letter has earned below `n` are its
/// matches in place and as many of its misplaced copies as the answer has
/// spare ones.
proof fn lemma_shown_split(g: Seq<char>, a: Seq<char>, l: int, n: int)
    ensures
        shown(g, a, l, n) == hits_of(g, a, l, n) + least(
            pending(g, a, l, n),
            spare(g, a, l, 5),
        ),
    decreases n,
{
    if n > 0 {
        lemma_shown_split(g, a, l, n - 1);
    }
}

/// A word scored against itself is correct in every position.
pub proof fn lemma_score_of_answer(a: Seq<char>)
    ensures
        score(a, a) == seq![CORRECT, CORRECT, CORRECT, CORRECT, CORRECT],
{
    assert(score(a, a) =~= seq![CORRECT, CORRECT, CORRECT, CORRECT, CORRECT]);
}

/// A position is marked correct exactly when guess and answer hold the same
/// letter there, so the feedback has as many correct marks as the two words
/// have letters in common in place.
pub proof fn lemma_correct_marks(g: Seq<char>, a: Seq<char>)
    ensures
        forall|i: int| 0 <= i < 5 ==> ((#[trigger] score(g, a)[i]) == CORRECT <==> hit(g, a, i)),
        marked(score(g, a), CORRECT, 5) == hits(g, a, 5),
{
    lemma_correct_marks_below(g, a, 5);
}

/// Below every position the feedback has as many correct marks as the two
/// words have letters in common in place.
proof fn lemma_correct_marks_below(g: Seq<char>, a: Seq<char>, n: int)
    requires
        n <= 5,
    ensures
        marked(score(g, a), CORRECT, n) == hits(g, a, n),
    decreases n,
{
    if n > 0 {
        lemma_correct_marks_below(g, a, n - 1);
    }
}

/// For every letter, the marks other than absent that the guess earns on it
/// are as many as the smaller of its count in the guess and its count in the
/// answer: never more than either word holds.
pub proof fn lemma_letter_marks(g: Seq<char>, a: Seq<char>, l: int)
    ensures
        shown(g, a, l, 5) == least(occurs(g, l, 5), occurs(a, l, 5)),
        shown(g, a, l, 5) <= occurs(g, l, 5),
        shown(g, a, l, 5) <= occurs(a, l, 5),
{
    lemma_occurs_split(g, a, l, 5);
    lemma_shown_split(g, a, l, 5);
}

} // verus!
