//! How a guess splits the candidates: one class for each feedback that the
//! guess could earn, holding the candidates against which it earns it.

use vstd::prelude::*;
use crate::candidates::{all_words, find_remaining_words, guesses_ok, is_remaining};
use crate::feedback::{color_state, score, CORRECT, PRESENT};
use crate::letters::is_word;
use crate::order::texts;

verus! {

/// Number of feedbacks that five marks can form.
pub const PATTERNS: usize = 243;

/// The candidates are searched themselves while there are at most this many
/// of them.
pub const POOL_LIMIT: usize = 500;

/// A mark as a digit to the base three.
pub open spec fn digit(m: char) -> int {
    if m == CORRECT {
        2
    } else if m == PRESENT {
        1
    } else {
        0
    }
}

/// A feedback as a number below 243: its marks are the digits to the base
/// three, the first mark the lowest.
pub open spec fn code(fb: Seq<char>) -> int {
    digit(fb[0]) + 3 * digit(fb[1]) + 9 * digit(fb[2]) + 27 * digit(fb[3]) + 81 * digit(fb[4])
}

/// Number of candidates below position `n` against which `guess` earns the
/// feedback of code `c`.
pub open spec fn class_size(guess: Seq<char>, candidates: Seq<String>, c: int, n: int) -> nat
    decreases n,
{
    if n <= 0 {
        0
    } else {
        class_size(guess, candidates, c, n - 1) + if code(score(guess, candidates[n - 1]@)) == c {
            1nat
        } else {
            0nat
        }
    }
}

/// Sum of the first `c` entries of a table of class sizes.
pub open spec fn sum_below(sizes: Seq<usize>, c: int) -> int
    decreases c,
{
    if c <= 0 {
        0
    } else {
        sum_below(sizes, c - 1) + sizes[c - 1]
    }
}

/// `sizes` is the table of the classes into which `guess` splits the
/// candidates: one entry for each code, holding the size of its class.
pub open spec fn is_partition(sizes: Seq<usize>, guess: Seq<char>, candidates: Seq<String>) -> bool {
    &&& sizes.len() == 243
    &&& forall|c: int|
        0 <= c < 243 ==> (#[trigger] sizes[c]) == class_size(
            guess,
            candidates,
            c,
            candidates.len() as int,
        )
}

/// The code of a feedback.
pub fn pattern_code(fb: &[char; 5]) -> (c: usize)
    ensures
        c == code(fb@),
        c < 243,
{
    let mut c: usize = 0;
    let mut j: usize = 5;
    while j > 0
        invariant
            0 <= j <= 5,
            j == 5 ==> c == 0,
            j == 4 ==> c == digit(fb@[4]),
            j == 3 ==> c == digit(fb@[3]) + 3 * digit(fb@[4]),
            j == 2 ==> c == digit(fb@[2]) + 3 * digit(fb@[3]) + 9 * digit(fb@[4]),
            j == 1 ==> c == digit(fb@[1]) + 3 * digit(fb@[2]) + 9 * digit(fb@[3]) + 27 * digit(
                fb@[4],
            ),
            j == 0 ==> c == code(fb@),
        decreases j,
    {
        j = j - 1;
        let d: usize = if fb[j] == CORRECT {
            2
        } else if fb[j] == PRESENT {
            1
        } else {
            0
        };
        c = 3 * c + d;
    }
    c
}

/// Two feedbacks made of marks have the same code only if they are the same
/// feedback.
pub proof fn lemma_code_injective(g: Seq<char>, a: Seq<char>, b: Seq<char>)
    ensures
        code(score(g, a)) == code(score(g, b)) <==> score(g, a) == score(g, b),
        0 <= code(score(g, a)) < 243,
{
    let x = score(g, a);
    let y = score(g, b);
    if code(x) == code(y) {
        assert(digit(x[0]) == digit(y[0]) && digit(x[1]) == digit(y[1]) && digit(x[2]) == digit(
            y[2],
        ) && digit(x[3]) == digit(y[3]) && digit(x[4]) == digit(y[4]));
        assert(x =~= y);
    }
}

/// The classes hold every candidate once: their sizes add up to the number
/// of candidates.
pub proof fn lemma_classes_total(sizes: Seq<usize>, guess: Seq<char>, candidates: Seq<String>)
    requires
        is_partition(sizes, guess, candidates),
    ensures
        sum_below(sizes, 243) == candidates.len(),
{
    lemma_sum_is_count(sizes, guess, candidates, candidates.len() as int, 243);
    lemma_count_total(guess, candidates, candidates.len() as int);
}

/// Number of candidates below `n` whose class has a code below `c`.
spec fn count_below(guess: Seq<char>, candidates: Seq<String>, n: int, c: int) -> int
    decreases c,
{
    if c <= 0 {
        0
    } else {
        count_below(guess, candidates, n, c - 1) + class_size(guess, candidates, c - 1, n)
    }
}

/// The first entries of the table add up to the candidates in their
/// classes.
proof fn lemma_sum_is_count(
    sizes: Seq<usize>,
    guess: Seq<char>,
    candidates: Seq<String>,
    n: int,
    c: int,
)
    requires
        is_partition(sizes, guess, candidates),
        n == candidates.len(),
        0 <= c <= 243,
    ensures
        sum_below(sizes, c) == count_below(guess, candidates, n, c),
    decreases c,
{
    if c > 0 {
        lemma_sum_is_count(sizes, guess, candidates, n, c - 1);
    }
}

/// One more candidate adds one to the classes below `c` if its code is
/// below `c`, and nothing otherwise.
proof fn lemma_count_step(guess: Seq<char>, candidates: Seq<String>, n: int, c: int)
    requires
        n > 0,
        0 <= c,
    ensures
        count_below(guess, candidates, n, c) == count_below(guess, candidates, n - 1, c) + if 0
            <= code(score(guess, candidates[n - 1]@)) < c {
            1int
        } else {
            0int
        },
    decreases c,
{
    if c > 0 {
        lemma_count_step(guess, candidates, n, c - 1);
    }
}

/// Every candidate is in one of the 243 classes.
proof fn lemma_count_total(guess: Seq<char>, candidates: Seq<String>, n: int)
    requires
        0 <= n,
    ensures
        count_below(guess, candidates, n, 243) == n,
    decreases n,
{
    if n > 0 {
        lemma_count_total(guess, candidates, n - 1);
        lemma_count_step(guess, candidates, n, 243);
        lemma_code_injective(guess, candidates[n - 1]@, candidates[n - 1]@);
    } else {
        lemma_count_empty(guess, candidates, n, 243);
    }
}

/// Without candidates every class is empty.
proof fn lemma_count_empty(guess: Seq<char>, candidates: Seq<String>, n: int, c: int)
    requires
        n <= 0,
    ensures
        count_below(guess, candidates, n, c) == 0,
    decreases c,
{
    if c > 0 {
        lemma_count_empty(guess, candidates, n, c - 1);
    }
}

/// Splits the candidates by the feedback that `guess` earns against them.
///
/// The result has one entry for each of the 243 codes; entry `c` is the
/// number of candidates against which the guess earns the feedback of code
/// `c`. The entries add up to the number of candidates.
pub fn partition_sizes(guess: &str, candidates: &[String]) -> (sizes: Vec<usize>)
    requires
        is_word(guess@),
        all_words(candidates@),
    ensures
        is_partition(sizes@, guess@, candidates@),
        sum_below(sizes@, 243) == candidates@.len(),
{
    let mut sizes: Vec<usize> = Vec::new();
    let mut c: usize = 0;
    while c < 243
        invariant
            0 <= c <= 243,
            sizes@.len() == c,
            forall|d: int| 0 <= d < c ==> (#[trigger] sizes@[d]) == 0,
        decreases 243 - c,
    {
        sizes.push(0);
        c = c + 1;
    }
    let mut i: usize = 0;
    while i < candidates.len()
        invariant
            0 <= i <= candidates@.len(),
            is_word(guess@),
            all_words(candidates@),
            sizes@.len() == 243,
            forall|d: int|
                0 <= d < 243 ==> (#[trigger] sizes@[d]) == class_size(
                    guess@,
                    candidates@,
                    d,
                    i as int,
                ),
            forall|d: int| 0 <= d < 243 ==> (#[trigger] sizes@[d]) <= i,
        decreases candidates@.len() - i,
    {
        let fb = color_state(guess, candidates[i].as_str());
        let code = pattern_code(&fb);
        let size = sizes[code];
        sizes.set(code, size + 1);
        i = i + 1;
    }
    proof {
        lemma_classes_total(sizes@, guess@, candidates@);
    }
    sizes
}

/// The words among which the next guess is looked for: the candidates
/// themselves while they are at most [`POOL_LIMIT`], and every acceptable
/// word beyond that.
pub fn search_pool<'a>(remaining: &'a [String], acceptable: &'a [String]) -> (pool: &'a [String])
    ensures
        pool@ == if remaining@.len() <= POOL_LIMIT {
            remaining@
        } else {
            acceptable@
        },
{
    if remaining.len() <= POOL_LIMIT {
        remaining
    } else {
        acceptable
    }
}

/// What the recorded turns leave to decide.
pub enum Survey {
    /// At most one candidate is left: there is nothing to recommend.
    Settled {
        /// The candidates: none, or the one word that is left.
        remaining: Vec<String>,
    },
    /// Several candidates are left.
    Open {
        /// The candidates, in dictionary order.
        remaining: Vec<String>,
        /// The words of the search pool, in the order of the pool.
        pool: Vec<String>,
        /// For each word of the pool, the sizes of the classes into which it
        /// splits the candidates.
        classes: Vec<Vec<usize>>,
    },
}

/// The survey that belongs to a list of acceptable words and the recorded
/// turns.
pub open spec fn is_survey(
    s: Survey,
    acceptable: Seq<String>,
    guesses: Seq<String>,
    states: Seq<[char; 5]>,
) -> bool {
    match s {
        Survey::Settled { remaining } => {
            &&& remaining@.len() <= 1
            &&& is_remaining(remaining@, acceptable, guesses, states)
        },
        Survey::Open { remaining, pool, classes } => {
            &&& remaining@.len() > 1
            &&& is_remaining(remaining@, acceptable, guesses, states)
            &&& texts(pool@) == texts(
                if remaining@.len() <= POOL_LIMIT {
                    remaining@
                } else {
                    acceptable
                },
            )
            &&& classes@.len() == pool@.len()
            &&& forall|i: int|
                0 <= i < pool@.len() ==> is_partition(
                    (#[trigger] classes@[i])@,
                    pool@[i]@,
                    remaining@,
                )
        },
    }
}

/// Surveys what is left after the recorded turns.
///
/// With at most one candidate left nothing is computed beyond the candidates.
/// Otherwise every word of the search pool is held against the candidates.
pub fn survey(
    acceptable_words: &[String],
    guess_history: &[String],
    state_history: &[[char; 5]],
) -> (s: Survey)
    requires
        all_words(acceptable_words@),
        guesses_ok(guess_history@, state_history@),
    ensures
        is_survey(s, acceptable_words@, guess_history@, state_history@),
{
    let remaining = find_remaining_words(acceptable_words, guess_history, state_history);
    if remaining.len() <= 1 {
        return Survey::Settled { remaining };
    }
    let mut pool: Vec<String> = Vec::new();
    let mut classes: Vec<Vec<usize>> = Vec::new();
    {
        let search = search_pool(remaining.as_slice(), acceptable_words);
        let mut i: usize = 0;
        while i < search.len()
            invariant
                0 <= i <= search@.len(),
                all_words(search@),
                all_words(remaining@),
                pool@.len() == i,
                classes@.len() == i,
                forall|k: int| 0 <= k < i ==> (#[trigger] pool@[k])@ == search@[k]@,
                forall|k: int|
                    0 <= k < i ==> is_partition((#[trigger] classes@[k])@, pool@[k]@, remaining@),
            decreases search@.len() - i,
        {
            let word = &search[i];
            let sizes = partition_sizes(word.as_str(), remaining.as_slice());
            pool.push(word.clone());
            classes.push(sizes);
            i = i + 1;
        }
        assert(texts(pool@) =~= texts(search@));
    }
    Survey::Open { remaining, pool, classes }
}

} // verus!
