//! Dictionary order of character sequences, and lists of words kept in that
//! order without repetition.

use vstd::prelude::*;

verus! {

/// The two sequences hold the same characters below position `k`.
pub open spec fn agree_below(a: Seq<char>, b: Seq<char>, k: int) -> bool {
    forall|j: int| 0 <= j < k ==> a[j] == b[j]
}

/// Position `k` decides that `a` comes before `b`: both agree below it, and
/// there `a` ends while `b` goes on, or `a` holds the smaller character.
pub open spec fn decides(a: Seq<char>, b: Seq<char>, k: int) -> bool {
    &&& 0 <= k <= a.len()
    &&& k < b.len()
    &&& agree_below(a, b, k)
    &&& (k < a.len() ==> a[k] < b[k])
}

/// `a` comes before `b` in dictionary order.
pub open spec fn precedes(a: Seq<char>, b: Seq<char>) -> bool {
    exists|k: int| #[trigger] decides(a, b, k)
}

/// The character sequences that the strings of a list hold.
pub open spec fn texts(words: Seq<String>) -> Seq<Seq<char>> {
    Seq::new(words.len(), |i: int| words[i]@)
}

/// The list `words` holds the character sequence `w`.
pub open spec fn listed(words: Seq<String>, w: Seq<char>) -> bool {
    exists|i: int| 0 <= i < words.len() && (#[trigger] words[i])@ == w
}

/// A list in dictionary order in which no sequence occurs twice.
pub open spec fn ascending(words: Seq<Seq<char>>) -> bool {
    forall|i: int, j: int| 0 <= i < j < words.len() ==> precedes(#[trigger] words[i], #[trigger] words[j])
}

/// Nothing comes before itself.
pub proof fn lemma_precedes_irreflexive(a: Seq<char>)
    ensures
        !precedes(a, a),
{
}

/// Dictionary order is transitive.
pub proof fn lemma_precedes_transitive(a: Seq<char>, b: Seq<char>, c: Seq<char>)
    requires
        precedes(a, b),
        precedes(b, c),
    ensures
        precedes(a, c),
{
    let k1 = choose|k: int| #[trigger] decides(a, b, k);
    let k2 = choose|k: int| #[trigger] decides(b, c, k);
    let k = if k1 <= k2 {
        k1
    } else {
        k2
    };
    assert(decides(a, c, k));
}

/// Of two sequences at most one comes before the other.
pub proof fn lemma_precedes_asymmetric(a: Seq<char>, b: Seq<char>)
    requires
        precedes(a, b),
    ensures
        !precedes(b, a),
        a != b,
{
    lemma_precedes_irreflexive(a);
    if precedes(b, a) {
        lemma_precedes_transitive(a, b, a);
    }
}

/// Two ascending lists that hold the same sequences are the same list.
pub proof fn lemma_ascending_unique(a: Seq<Seq<char>>, b: Seq<Seq<char>>)
    requires
        ascending(a),
        ascending(b),
        forall|w: Seq<char>| a.contains(w) <==> b.contains(w),
    ensures
        a == b,
{
    lemma_ascending_prefix(a, b, a.len() as int);
    lemma_ascending_prefix(b, a, b.len() as int);
    assert(a =~= b);
}

/// Two ascending lists that hold the same sequences agree on their first
/// `n` entries.
proof fn lemma_ascending_prefix(a: Seq<Seq<char>>, b: Seq<Seq<char>>, n: int)
    requires
        ascending(a),
        ascending(b),
        forall|w: Seq<char>| a.contains(w) <==> b.contains(w),
        0 <= n <= a.len(),
    ensures
        n <= b.len(),
        forall|i: int| 0 <= i < n ==> a[i] == b[i],
    decreases n,
{
    if n > 0 {
        lemma_ascending_prefix(a, b, n - 1);
        let i = n - 1;
        assert(a.contains(a[i]));
        let m = choose|m: int| 0 <= m < b.len() && b[m] == a[i];
        if m < i {
            lemma_precedes_asymmetric(a[m], a[i]);
        }
        if m > i {
            assert(b.contains(b[i]));
            let p = choose|p: int| 0 <= p < a.len() && a[p] == b[i];
            lemma_precedes_asymmetric(b[i], b[m]);
            if p < i {
                lemma_precedes_asymmetric(b[p], b[i]);
            }
            if p > i {
                lemma_precedes_asymmetric(a[i], a[p]);
            }
        }
    }
}

/// How two words stand to each other in dictionary order.
#[derive(Clone, Copy, PartialEq, Eq, Structural, Debug)]
pub enum Place {
    /// The first word comes before the second.
    Before,
    /// Both are the same word.
    Same,
    /// The first word comes after the second.
    After,
}

/// Compares two strings in dictionary order.
pub fn place_of(a: &str, b: &str) -> (r: Place)
    ensures
        r == Place::Before <==> precedes(a@, b@),
        r == Place::Same <==> a@ == b@,
        r == Place::After <==> precedes(b@, a@),
{
    let n = a.unicode_len();
    let m = b.unicode_len();
    let mut j: usize = 0;
    while j < n && j < m
        invariant
            0 <= j <= n,
            j <= m,
            n == a@.len(),
            m == b@.len(),
            agree_below(a@, b@, j as int),
        decreases n - j,
    {
        let x = a.get_char(j);
        let y = b.get_char(j);
        if x < y {
            assert(decides(a@, b@, j as int));
            proof {
                lemma_precedes_asymmetric(a@, b@);
            }
            return Place::Before;
        }
        if x > y {
            assert(decides(b@, a@, j as int));
            proof {
                lemma_precedes_asymmetric(b@, a@);
            }
            return Place::After;
        }
        j = j + 1;
    }
    if n < m {
        assert(decides(a@, b@, n as int));
        proof {
            lemma_precedes_asymmetric(a@, b@);
        }
        Place::Before
    } else if n > m {
        assert(decides(b@, a@, m as int));
        proof {
            lemma_precedes_asymmetric(b@, a@);
        }
        Place::After
    } else {
        assert(a@ =~= b@);
        proof {
            lemma_precedes_irreflexive(a@);
        }
        Place::Same
    }
}

/// Of two different sequences one comes before the other.
pub proof fn lemma_precedes_total(a: Seq<char>, b: Seq<char>)
    ensures
        a == b || precedes(a, b) || precedes(b, a),
{
    lemma_first_difference(a, b, 0);
}

/// Two sequences that agree below `k` are the same, or one comes before the
/// other.
proof fn lemma_first_difference(a: Seq<char>, b: Seq<char>, k: int)
    requires
        0 <= k <= a.len(),
        k <= b.len(),
        agree_below(a, b, k),
    ensures
        a == b || precedes(a, b) || precedes(b, a),
    decreases a.len() - k,
{
    if k == a.len() {
        if k == b.len() {
            assert(a =~= b);
        } else {
            assert(decides(a, b, k));
        }
    } else if k == b.len() {
        assert(decides(b, a, k));
    } else if a[k] < b[k] {
        assert(decides(a, b, k));
    } else if b[k] < a[k] {
        assert(decides(b, a, k));
    } else {
        lemma_first_difference(a, b, k + 1);
    }
}

/// A list holds a character sequence exactly when its texts do.
pub proof fn lemma_texts_listed(words: Seq<String>, w: Seq<char>)
    ensures
        texts(words).contains(w) <==> listed(words, w),
{
    if texts(words).contains(w) {
        let i = choose|i: int| 0 <= i < texts(words).len() && texts(words)[i] == w;
        assert(words[i]@ == w);
    }
    if listed(words, w) {
        let i = choose|i: int| 0 <= i < words.len() && (#[trigger] words[i])@ == w;
        assert(texts(words)[i] == w);
    }
}

/// Where a word belongs in an ascending list: `Err` if the list holds it
/// already, else `Ok` with the position before which it is to stand.
fn place_in(out: &Vec<String>, word: &str) -> (r: Result<usize, ()>)
    requires
        ascending(texts(out@)),
    ensures
        r is Err ==> listed(out@, word@),
        r is Ok ==> !listed(out@, word@),
        r matches Ok(p) ==> {
            &&& p <= out@.len()
            &&& forall|q: int| 0 <= q < p ==> precedes((#[trigger] out@[q])@, word@)
            &&& forall|q: int| p <= q < out@.len() ==> precedes(word@, (#[trigger] out@[q])@)
        },
{
    let mut p: usize = out.len();
    while p > 0
        invariant
            0 <= p <= out@.len(),
            ascending(texts(out@)),
            forall|q: int| p <= q < out@.len() ==> precedes(word@, (#[trigger] out@[q])@),
        decreases p,
    {
        match place_of(out[p - 1].as_str(), word) {
            Place::Before => {
                assert forall|q: int| 0 <= q < p implies precedes((#[trigger] out@[q])@, word@) by {
                    if q < p - 1 {
                        assert(precedes(texts(out@)[q], texts(out@)[p - 1]));
                        lemma_precedes_transitive(out@[q]@, out@[p - 1]@, word@);
                    }
                }
                proof {
                    lemma_gap_not_listed(out@, word@, p as int);
                }
                return Ok(p);
            },
            Place::Same => {
                return Err(());
            },
            Place::After => {
                p = p - 1;
            },
        }
    }
    proof {
        lemma_gap_not_listed(out@, word@, p as int);
    }
    Ok(p)
}

/// A sequence that belongs strictly between two neighbours of a list is not
/// in the list.
proof fn lemma_gap_not_listed(out: Seq<String>, w: Seq<char>, p: int)
    requires
        0 <= p <= out.len(),
        forall|q: int| 0 <= q < p ==> precedes((#[trigger] out[q])@, w),
        forall|q: int| p <= q < out.len() ==> precedes(w, (#[trigger] out[q])@),
    ensures
        !listed(out, w),
{
    if listed(out, w) {
        let i = choose|i: int| 0 <= i < out.len() && (#[trigger] out[i])@ == w;
        lemma_precedes_irreflexive(w);
    }
}

/// Adds a word to an ascending list, unless the list holds it already.
pub fn insert_word(out: &mut Vec<String>, word: &String)
    requires
        ascending(texts(old(out)@)),
    ensures
        ascending(texts(final(out)@)),
        final(out)@.len() == old(out)@.len() + if listed(old(out)@, word@) {
            0int
        } else {
            1int
        },
        forall|w: Seq<char>| #[trigger]
            listed(final(out)@, w) <==> (listed(old(out)@, w) || w == word@),
{
    match place_in(out, word.as_str()) {
        Err(_) => {},
        Ok(p) => {
            let ghost before = out@;
            out.insert(p, word.clone());
            proof {
                let after = out@;
                assert forall|i: int, j: int| 0 <= i < j < after.len() implies precedes(
                    #[trigger] texts(after)[i],
                    #[trigger] texts(after)[j],
                ) by {
                    let bi = if i < p { i } else { i - 1 };
                    let bj = if j < p { j } else { j - 1 };
                    if i != p && j != p {
                        assert(precedes(texts(before)[bi], texts(before)[bj]));
                    }
                }
                assert forall|w: Seq<char>| #[trigger]
                    listed(after, w) <==> (listed(before, w) || w == word@) by {
                    if listed(after, w) {
                        let i = choose|i: int| 0 <= i < after.len() && (#[trigger] after[i])@ == w;
                        if i != p {
                            let bi = if i < p { i } else { i - 1 };
                            assert(before[bi]@ == w);
                        }
                    }
                    if listed(before, w) {
                        let i = choose|i: int| 0 <= i < before.len() && (#[trigger] before[i])@ == w;
                        let ai = if i < p { i } else { i + 1 };
                        assert(after[ai]@ == w);
                    }
                    if w == word@ {
                        assert(after[p as int]@ == w);
                    }
                }
            }
        },
    }
}

/// Whether a list holds a string.
pub fn contains_word(words: &[String], word: &str) -> (r: bool)
    ensures
        r == listed(words@, word@),
{
    let mut i: usize = 0;
    while i < words.len()
        invariant
            0 <= i <= words@.len(),
            forall|k: int| 0 <= k < i ==> (#[trigger] words@[k])@ != word@,
        decreases words@.len() - i,
    {
        if place_of(words[i].as_str(), word) == Place::Same {
            return true;
        }
        i = i + 1;
    }
    false
}

} // verus!
