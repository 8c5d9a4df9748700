//! Word sets: the list of possible answers and the list of acceptable
//! guesses, checked and put in order before a session starts.

use vstd::prelude::*;
use crate::candidates::all_words;
use crate::letters::{ascii_lowercase, folded, is_word, is_word_str, lemma_case_keeps_word};
use crate::order::{
    ascending, insert_word, lemma_precedes_asymmetric, lemma_precedes_irreflexive,
    lemma_precedes_transitive, listed, place_of, precedes, texts, Place,
};

verus! {

/// Why a pair of word lists is refused.
#[derive(Clone, Copy, PartialEq, Eq, Structural, Debug)]
pub enum WordSetError {
    /// A list holds the same word twice, the case of letters set aside.
    Duplicate,
    /// A list holds a line that is not a word of five letters.
    Malformed,
    /// An answer is missing from the acceptable words.
    NotSubset,
}

/// Two of the lines are the same once brought to lowercase.
pub open spec fn has_duplicate(lines: Seq<String>) -> bool {
    exists|i: int, j: int|
        0 <= i < j < lines.len() && folded((#[trigger] lines[i])@) == folded((#[trigger] lines[j])@)
}

/// One of the lines is not a word.
pub open spec fn has_malformed(lines: Seq<String>) -> bool {
    exists|i: int| 0 <= i < lines.len() && !is_word((#[trigger] lines[i])@)
}

/// One of the first `n` lines, brought to lowercase, is `w`.
pub open spec fn folded_listed(lines: Seq<String>, w: Seq<char>, n: int) -> bool {
    exists|i: int| 0 <= i < n && i < lines.len() && folded((#[trigger] lines[i])@) == w
}

/// Some line of `small`, brought to lowercase, is no line of `big`.
pub open spec fn has_stray(small: Seq<String>, big: Seq<String>) -> bool {
    exists|i: int|
        0 <= i < small.len() && !folded_listed(
            big,
            folded((#[trigger] small[i])@),
            big.len() as int,
        )
}

/// `out` is the word set of the lines: their lowercase forms in dictionary
/// order, none of them lost and none added.
pub open spec fn is_word_set(out: Seq<String>, lines: Seq<String>) -> bool {
    &&& ascending(texts(out))
    &&& out.len() == lines.len()
    &&& forall|w: Seq<char>| #[trigger] listed(out, w) <==> folded_listed(lines, w, lines.len() as int)
}

/// The first fault of a pair of word lists, if there is one. The answers
/// are looked at before the acceptable words, and in each list a repeated
/// word is reported before a malformed line.
pub open spec fn fault(answers: Seq<String>, acceptable: Seq<String>) -> Option<WordSetError> {
    if has_duplicate(answers) {
        Some(WordSetError::Duplicate)
    } else if has_malformed(answers) {
        Some(WordSetError::Malformed)
    } else if has_duplicate(acceptable) {
        Some(WordSetError::Duplicate)
    } else if has_malformed(acceptable) {
        Some(WordSetError::Malformed)
    } else if has_stray(answers, acceptable) {
        Some(WordSetError::NotSubset)
    } else {
        None
    }
}

/// Two of the first `n` lines are the same once brought to lowercase.
spec fn has_duplicate_below(lines: Seq<String>, n: int) -> bool {
    exists|i: int, j: int|
        0 <= i < j < n && j < lines.len() && folded((#[trigger] lines[i])@) == folded(
            (#[trigger] lines[j])@,
        )
}

/// Brings one list into order: the lowercase forms of its lines, sorted.
/// A repeated word is reported first, then a line that is no word.
fn word_set(lines: &[String]) -> (r: Result<Vec<String>, WordSetError>)
    ensures
        match r {
            Ok(out) => !has_duplicate(lines@) && !has_malformed(lines@) && is_word_set(
                out@,
                lines@,
            ) && all_words(out@),
            Err(e) => if has_duplicate(lines@) {
                e == WordSetError::Duplicate
            } else {
                has_malformed(lines@) && e == WordSetError::Malformed
            },
        },
{
    let mut out: Vec<String> = Vec::new();
    let mut i: usize = 0;
    while i < lines.len()
        invariant
            0 <= i <= lines@.len(),
            ascending(texts(out@)),
            out@.len() <= i,
            out@.len() == i <==> !has_duplicate_below(lines@, i as int),
            forall|w: Seq<char>| #[trigger] listed(out@, w) <==> folded_listed(lines@, w, i as int),
        decreases lines@.len() - i,
    {
        let word = ascii_lowercase(lines[i].as_str());
        let ghost before = out@;
        insert_word(&mut out, &word);
        proof {
            let n = i as int;
            if listed(before, word@) {
                let k = choose|k: int|
                    0 <= k < n && k < lines@.len() && folded((#[trigger] lines@[k])@) == word@;
                assert(folded(lines@[k]@) == folded(lines@[n]@));
                assert(has_duplicate_below(lines@, n + 1));
            }
            if has_duplicate_below(lines@, n + 1) && !has_duplicate_below(lines@, n) {
                let (a, b) = choose|a: int, b: int|
                    0 <= a < b < n + 1 && b < lines@.len() && folded((#[trigger] lines@[a])@)
                        == folded((#[trigger] lines@[b])@);
                assert(b == n);
                assert(folded_listed(lines@, word@, n));
            }
            if has_duplicate_below(lines@, n) {
                let (a, b) = choose|a: int, b: int|
                    0 <= a < b < n && b < lines@.len() && folded((#[trigger] lines@[a])@) == folded(
                        (#[trigger] lines@[b])@,
                    );
                assert(has_duplicate_below(lines@, n + 1));
            }
            assert forall|w: Seq<char>| #[trigger]
                listed(out@, w) <==> folded_listed(lines@, w, n + 1) by {
                if folded_listed(lines@, w, n + 1) {
                    let k = choose|k: int|
                        0 <= k < n + 1 && k < lines@.len() && folded((#[trigger] lines@[k])@) == w;
                    if k < n {
                        assert(folded_listed(lines@, w, n));
                    }
                }
                if folded_listed(lines@, w, n) {
                    let k = choose|k: int|
                        0 <= k < n && k < lines@.len() && folded((#[trigger] lines@[k])@) == w;
                    assert(folded_listed(lines@, w, n + 1));
                }
                if w == word@ {
                    assert(folded(lines@[n]@) == w);
                    assert(folded_listed(lines@, w, n + 1));
                }
            }
        }
        i = i + 1;
    }
    proof {
        if has_duplicate(lines@) {
            let (a, b) = choose|a: int, b: int|
                0 <= a < b < lines@.len() && folded((#[trigger] lines@[a])@) == folded(
                    (#[trigger] lines@[b])@,
                );
            assert(has_duplicate_below(lines@, lines@.len() as int));
        }
        if has_duplicate_below(lines@, lines@.len() as int) {
            let (a, b) = choose|a: int, b: int|
                0 <= a < b < lines@.len() && b < lines@.len() && folded((#[trigger] lines@[a])@)
                    == folded((#[trigger] lines@[b])@);
            assert(has_duplicate(lines@));
        }
    }
    if out.len() != lines.len() {
        return Err(WordSetError::Duplicate);
    }
    let mut j: usize = 0;
    while j < out.len()
        invariant
            0 <= j <= out@.len(),
            !has_duplicate(lines@),
            forall|w: Seq<char>| #[trigger]
                listed(out@, w) <==> folded_listed(lines@, w, lines@.len() as int),
            forall|k: int| 0 <= k < j ==> is_word((#[trigger] out@[k])@),
        decreases out@.len() - j,
    {
        if !is_word_str(out[j].as_str()) {
            proof {
                let w = out@[j as int]@;
                assert(listed(out@, w));
                let k = choose|k: int|
                    0 <= k < lines@.len() && k < lines@.len() && folded((#[trigger] lines@[k])@)
                        == w;
                lemma_case_keeps_word(lines@[k]@);
            }
            return Err(WordSetError::Malformed);
        }
        j = j + 1;
    }
    proof {
        if has_malformed(lines@) {
            let k = choose|k: int| 0 <= k < lines@.len() && !is_word((#[trigger] lines@[k])@);
            let w = folded(lines@[k]@);
            lemma_case_keeps_word(lines@[k]@);
            assert(folded_listed(lines@, w, lines@.len() as int));
            assert(listed(out@, w));
            let m = choose|m: int| 0 <= m < out@.len() && (#[trigger] out@[m])@ == w;
        }
    }
    Ok(out)
}

/// Whether every word of one ascending list is in another.
fn is_sublist(small: &Vec<String>, big: &Vec<String>) -> (r: bool)
    requires
        ascending(texts(small@)),
        ascending(texts(big@)),
    ensures
        r == forall|i: int| 0 <= i < small@.len() ==> listed(big@, (#[trigger] small@[i])@),
{
    let mut i: usize = 0;
    let mut j: usize = 0;
    while i < small.len()
        invariant
            0 <= i <= small@.len(),
            0 <= j <= big@.len(),
            ascending(texts(small@)),
            ascending(texts(big@)),
            forall|k: int| 0 <= k < i ==> listed(big@, (#[trigger] small@[k])@),
            i < small@.len() ==> forall|q: int|
                0 <= q < j ==> precedes((#[trigger] big@[q])@, small@[i as int]@),
        decreases small@.len() - i,
    {
        let word = &small[i];
        let mut found = false;
        while j < big.len() && !found
            invariant
                0 <= i < small@.len(),
                0 <= j <= big@.len(),
                word@ == small@[i as int]@,
                ascending(texts(big@)),
                forall|q: int| 0 <= q < j ==> precedes((#[trigger] big@[q])@, word@),
                found ==> j < big@.len() && big@[j as int]@ == word@,
            decreases big@.len() - j, if found { 0int } else { 1int },
        {
            match place_of(big[j].as_str(), word.as_str()) {
                Place::Before => {
                    j = j + 1;
                },
                Place::Same => {
                    found = true;
                },
                Place::After => {
                    proof {
                        lemma_strays(big@, word@, j as int);
                    }
                    assert(!listed(big@, small@[i as int]@));
                    return false;
                },
            }
        }
        if !found {
            proof {
                lemma_strays(big@, word@, j as int);
            }
            assert(!listed(big@, small@[i as int]@));
            return false;
        }
        proof {
            if i + 1 < small@.len() {
                assert(precedes(texts(small@)[i as int], texts(small@)[i + 1]));
                assert forall|q: int| 0 <= q < j implies precedes(
                    (#[trigger] big@[q])@,
                    small@[i + 1]@,
                ) by {
                    lemma_precedes_transitive(big@[q]@, small@[i as int]@, small@[i + 1]@);
                }
            }
        }
        i = i + 1;
    }
    true
}

/// A sequence that every entry below `j` precedes, and that precedes the
/// entry at `j` if there is one, is not in the ascending list.
proof fn lemma_strays(big: Seq<String>, w: Seq<char>, j: int)
    requires
        ascending(texts(big)),
        0 <= j <= big.len(),
        forall|q: int| 0 <= q < j ==> precedes((#[trigger] big[q])@, w),
        j < big.len() ==> precedes(w, big[j]@),
    ensures
        !listed(big, w),
{
    if listed(big, w) {
        let i = choose|i: int| 0 <= i < big.len() && (#[trigger] big[i])@ == w;
        lemma_precedes_irreflexive(w);
        if i > j {
            assert(precedes(texts(big)[j], texts(big)[i]));
            lemma_precedes_asymmetric(w, big[j]@);
        }
    }
}

/// Checks the two word lists of a session and puts them in order.
///
/// Each line is taken in lowercase. A list is refused if it holds a word
/// twice or a line that is not a word of five letters, and the pair is
/// refused if an answer is missing from the acceptable words. Otherwise the
/// answer is the two lists in dictionary order, the answers first.
pub fn validate_word_sets(final_lines: &[String], acceptable_lines: &[String]) -> (r: Result<
    (Vec<String>, Vec<String>),
    WordSetError,
>)
    ensures
        match r {
            Ok((answers, acceptable)) => {
                &&& fault(final_lines@, acceptable_lines@) is None
                &&& is_word_set(answers@, final_lines@)
                &&& is_word_set(acceptable@, acceptable_lines@)
                &&& all_words(answers@)
                &&& all_words(acceptable@)
                &&& forall|i: int|
                    0 <= i < answers@.len() ==> listed(acceptable@, (#[trigger] answers@[i])@)
            },
            Err(e) => fault(final_lines@, acceptable_lines@) == Some(e),
        },
{
    let answers = match word_set(final_lines) {
        Ok(words) => words,
        Err(e) => {
            return Err(e);
        },
    };
    let acceptable = match word_set(acceptable_lines) {
        Ok(words) => words,
        Err(e) => {
            return Err(e);
        },
    };
    let inside = is_sublist(&answers, &acceptable);
    proof {
        let n = acceptable_lines@.len() as int;
        if has_stray(final_lines@, acceptable_lines@) {
            let i = choose|i: int|
                0 <= i < final_lines@.len() && !folded_listed(
                    acceptable_lines@,
                    folded((#[trigger] final_lines@[i])@),
                    n,
                );
            let w = folded(final_lines@[i]@);
            assert(folded_listed(final_lines@, w, final_lines@.len() as int));
            assert(listed(answers@, w));
            let m = choose|m: int| 0 <= m < answers@.len() && (#[trigger] answers@[m])@ == w;
            assert(!listed(acceptable@, answers@[m]@));
        }
        if !inside {
            let m = choose|m: int|
                0 <= m < answers@.len() && !listed(acceptable@, (#[trigger] answers@[m])@);
            let w = answers@[m]@;
            assert(listed(answers@, w));
            let i = choose|i: int|
                0 <= i < final_lines@.len() && i < final_lines@.len() && folded(
                    (#[trigger] final_lines@[i])@,
                ) == w;
            assert(has_stray(final_lines@, acceptable_lines@));
        }
    }
    if !inside {
        return Err(WordSetError::NotSubset);
    }
    Ok((answers, acceptable))
}

} // verus!
