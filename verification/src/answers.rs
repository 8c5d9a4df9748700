//! Where the answer of a round comes from: a word given beforehand, the
//! word of a day in an order that a seed fixes, or a word drawn at random.

use rand::rngs::StdRng;
use rand::seq::SliceRandom;
use rand::SeedableRng;
use vstd::prelude::*;
use crate::letters::{ascii_lowercase, folded};
use crate::order::{contains_word, listed, texts};

verus! {

/// The order into which the generator `StdRng` of the crate `rand`, seeded
/// with `seed`, shuffles the list `words`.
pub uninterp spec fn seeded_shuffle(words: Seq<Seq<char>>, seed: u64) -> Seq<Seq<char>>;

/// Shuffles a list of words in the order that a seed fixes.
///
/// Makes the generator with `StdRng::seed_from_u64` and hands it to
/// `SliceRandom::shuffle`, both of the crate `rand`. The generator is built
/// from the seed alone and the shuffle does nothing but swap entries of the
/// list, at positions that it draws from the generator. So the outcome is
/// the same for the same list and seed, which is what the name
/// [`seeded_shuffle`] stands for; it has the length of the list and holds
/// the same words as often. None of this is proved.
#[verifier::external_body]
fn shuffle_seeded(words: &mut Vec<String>, seed: u64)
    ensures
        texts(final(words)@) == seeded_shuffle(texts(old(words)@), seed),
        final(words)@.len() == old(words)@.len(),
        texts(final(words)@).to_multiset() == texts(old(words)@).to_multiset(),
{
    let mut rng = StdRng::seed_from_u64(seed);
    words.shuffle(&mut rng);
}

/// Draws one word of a list at random.
///
/// Calls `SliceRandom::choose` of the crate `rand` with the generator that
/// `rand::thread_rng` hands out. Which word comes back is left open: it is
/// one of the list, and there is none only where the list is empty. The
/// generator is seeded by the system, and seeded anew from time to time; it
/// stops the program where the system has no randomness to give, at its
/// start or when it is seeded anew. No list of words brings that about or
/// keeps it away.
#[verifier::external_body]
fn choose_any(words: &Vec<String>) -> (r: Option<String>)
    ensures
        r is None <==> words@.len() == 0,
        r matches Some(w) ==> listed(words@, w@),
{
    let mut rng = rand::thread_rng();
    words.choose(&mut rng).cloned()
}

/// The word of a day in a list: day `1` is the first word.
pub fn answer_at(words: &[String], day: u32) -> (r: String)
    requires
        1 <= day <= words@.len(),
    ensures
        r@ == words@[day - 1]@,
{
    words[(day - 1) as usize].clone()
}

/// The answer of a day.
///
/// The answers are shuffled in the order that the seed fixes, and the
/// answer of day `1` is the first of the shuffled list.
pub fn get_answer_for_day(day: u32, seed: u64, answers: &[String]) -> (r: String)
    requires
        1 <= day <= answers@.len(),
    ensures
        r@ == seeded_shuffle(texts(answers@), seed)[day - 1],
        listed(answers@, r@),
        seeded_shuffle(texts(answers@), seed).len() == answers@.len(),
        seeded_shuffle(texts(answers@), seed).to_multiset() == texts(answers@).to_multiset(),
{
    let mut words: Vec<String> = Vec::new();
    let mut i: usize = 0;
    while i < answers.len()
        invariant
            0 <= i <= answers@.len(),
            words@.len() == i,
            forall|k: int| 0 <= k < i ==> (#[trigger] words@[k])@ == answers@[k]@,
        decreases answers@.len() - i,
    {
        words.push(answers[i].clone());
        i = i + 1;
    }
    assert(texts(words@) =~= texts(answers@));
    shuffle_seeded(&mut words, seed);
    let r = answer_at(words.as_slice(), day);
    proof {
        let shuffled = texts(words@);
        let given = texts(answers@);
        shuffled.to_multiset_ensures();
        given.to_multiset_ensures();
        assert(shuffled[day - 1] == r@);
        assert(shuffled.contains(r@));
        assert(shuffled.to_multiset().count(r@) > 0);
        assert(given.to_multiset().count(r@) > 0);
        assert(given.contains(r@));
        let k = choose|k: int| 0 <= k < given.len() && given[k] == r@;
        assert(answers@[k]@ == r@);
    }
    r
}

/// Where no answer stands twice in the list, no two days have the same
/// answer: a list that holds the same words as often holds none of them
/// twice either.
pub proof fn lemma_days_differ(
    shuffled: Seq<Seq<char>>,
    answers: Seq<Seq<char>>,
    day: int,
    other: int,
)
    requires
        shuffled.to_multiset() == answers.to_multiset(),
        answers.no_duplicates(),
        1 <= day <= shuffled.len(),
        1 <= other <= shuffled.len(),
        day != other,
    ensures
        shuffled[day - 1] != shuffled[other - 1],
{
    answers.lemma_multiset_has_no_duplicates();
    shuffled.lemma_multiset_has_no_duplicates_conv();
}

/// The answer that was given beforehand: the word in lowercase if it is one
/// of the answers, and none otherwise.
pub fn given_answer(word: &str, answers: &[String]) -> (r: Option<String>)
    ensures
        r is Some <==> listed(answers@, folded(word@)),
        r matches Some(w) ==> w@ == folded(word@),
{
    let lower = ascii_lowercase(word);
    if contains_word(answers, lower.as_str()) {
        Some(lower)
    } else {
        None
    }
}

/// Every answer has been played.
pub open spec fn exhausted(answers: Seq<String>, played: Seq<String>) -> bool {
    forall|i: int| 0 <= i < answers.len() ==> listed(played, (#[trigger] answers[i])@)
}

/// An answer drawn at random among those that have not been played, or none
/// if every answer has been played.
pub fn fresh_answer(answers: &[String], played: &[String]) -> (r: Option<String>)
    ensures
        r is None <==> exhausted(answers@, played@),
        r matches Some(w) ==> listed(answers@, w@) && !listed(played@, w@),
{
    let mut fresh: Vec<String> = Vec::new();
    let mut i: usize = 0;
    while i < answers.len()
        invariant
            0 <= i <= answers@.len(),
            forall|k: int|
                0 <= k < fresh@.len() ==> listed(answers@, (#[trigger] fresh@[k])@) && !listed(
                    played@,
                    fresh@[k]@,
                ),
            fresh@.len() == 0 <==> forall|k: int|
                0 <= k < i ==> listed(played@, (#[trigger] answers@[k])@),
        decreases answers@.len() - i,
    {
        if !contains_word(played, answers[i].as_str()) {
            fresh.push(answers[i].clone());
        }
        i = i + 1;
    }
    let r = choose_any(&fresh);
    proof {
        if r is Some {
            let w = r->0@;
            let k = choose|k: int| 0 <= k < fresh@.len() && (#[trigger] fresh@[k])@ == w;
        }
    }
    r
}

} // verus!
