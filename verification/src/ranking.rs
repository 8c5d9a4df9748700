//! Ranking of scored words: the greater score first and, among equal scores,
//! the word that comes first in the dictionary.

use vstd::prelude::*;
use crate::order::{
    lemma_precedes_asymmetric, lemma_precedes_total, lemma_precedes_transitive, place_of, precedes,
    Place,
};

verus! {

/// Entry `x` is ranked ahead of entry `y`: it has the greater score, or the
/// same score and the earlier word, or both are alike and `x` stands first.
pub open spec fn ahead(entries: Seq<(String, u64)>, x: int, y: int) -> bool {
    let a = entries[x];
    let b = entries[y];
    a.1 > b.1 || (a.1 == b.1 && (precedes(a.0@, b.0@) || (a.0@ == b.0@ && x < y)))
}

/// `order` lists the positions of all entries from the best to the worst.
pub open spec fn is_ranking(order: Seq<usize>, entries: Seq<(String, u64)>) -> bool {
    &&& order.len() == entries.len()
    &&& forall|i: int| 0 <= i < order.len() ==> (#[trigger] order[i]) < entries.len()
    &&& forall|x: int| 0 <= x < entries.len() ==> #[trigger] order.contains(x as usize)
    &&& forall|i: int, j: int|
        0 <= i < j < order.len() ==> ahead(entries, #[trigger] order[i] as int, #[trigger] order[j] as int)
}

/// `best` holds the `k` best entries in the order of their rank, or all of
/// them where there are fewer than `k`.
pub open spec fn is_top(best: Seq<(String, u64)>, entries: Seq<(String, u64)>, k: int) -> bool {
    exists|order: Seq<usize>|
        {
            &&& #[trigger] is_ranking(order, entries)
            &&& picks(best, entries, order, k)
        }
}

/// `best` holds the entries at the first `k` positions of `order`, or at all
/// of them where there are fewer than `k`.
pub open spec fn picks(
    best: Seq<(String, u64)>,
    entries: Seq<(String, u64)>,
    order: Seq<usize>,
    k: int,
) -> bool {
    &&& best.len() == if k <= order.len() {
        k
    } else {
        order.len() as int
    }
    &&& forall|i: int|
        0 <= i < best.len() ==> (#[trigger] best[i]).0@ == entries[order[i] as int].0@ && best[i].1
            == entries[order[i] as int].1
}

/// Of two different entries one is ahead of the other.
pub proof fn lemma_ahead_total(entries: Seq<(String, u64)>, x: int, y: int)
    requires
        x != y,
    ensures
        ahead(entries, x, y) || ahead(entries, y, x),
{
    lemma_precedes_total(entries[x].0@, entries[y].0@);
}

/// No entry is ahead of one that is ahead of it.
pub proof fn lemma_ahead_asymmetric(entries: Seq<(String, u64)>, x: int, y: int)
    requires
        ahead(entries, x, y),
    ensures
        !ahead(entries, y, x),
        x != y,
{
    if precedes(entries[x].0@, entries[y].0@) {
        lemma_precedes_asymmetric(entries[x].0@, entries[y].0@);
    }
    if precedes(entries[y].0@, entries[x].0@) {
        lemma_precedes_asymmetric(entries[y].0@, entries[x].0@);
    }
}

/// Being ahead is transitive.
pub proof fn lemma_ahead_transitive(entries: Seq<(String, u64)>, x: int, y: int, z: int)
    requires
        ahead(entries, x, y),
        ahead(entries, y, z),
    ensures
        ahead(entries, x, z),
{
    let a = entries[x].0@;
    let b = entries[y].0@;
    let c = entries[z].0@;
    if precedes(a, b) && precedes(b, c) {
        lemma_precedes_transitive(a, b, c);
    }
}

/// The entries have one ranking only.
pub proof fn lemma_ranking_unique(a: Seq<usize>, b: Seq<usize>, entries: Seq<(String, u64)>)
    requires
        is_ranking(a, entries),
        is_ranking(b, entries),
    ensures
        a == b,
{
    lemma_ranking_prefix(a, b, entries, a.len() as int);
    assert(a =~= b);
}

/// Two rankings of the same entries agree on their first `n` positions.
proof fn lemma_ranking_prefix(a: Seq<usize>, b: Seq<usize>, entries: Seq<(String, u64)>, n: int)
    requires
        is_ranking(a, entries),
        is_ranking(b, entries),
        0 <= n <= a.len(),
    ensures
        forall|i: int| 0 <= i < n ==> a[i] == b[i],
    decreases n,
{
    if n > 0 {
        lemma_ranking_prefix(a, b, entries, n - 1);
        let i = n - 1;
        assert(b.contains((a[i] as int) as usize));
        let m = choose|m: int| 0 <= m < b.len() && b[m] == a[i];
        if m < i {
            lemma_ahead_asymmetric(entries, a[m] as int, a[i] as int);
        }
        if m > i {
            assert(a.contains((b[i] as int) as usize));
            let p = choose|p: int| 0 <= p < a.len() && a[p] == b[i];
            lemma_ahead_asymmetric(entries, b[i] as int, b[m] as int);
            if p < i {
                lemma_ahead_asymmetric(entries, b[p] as int, b[i] as int);
            }
            if p > i {
                lemma_ahead_asymmetric(entries, a[i] as int, a[p] as int);
            }
        }
    }
}

/// The best entries are those at the head of the ranking, whichever way the
/// ranking was found.
pub proof fn lemma_top_follows_ranking(
    best: Seq<(String, u64)>,
    entries: Seq<(String, u64)>,
    order: Seq<usize>,
    k: int,
)
    requires
        is_top(best, entries, k),
        is_ranking(order, entries),
    ensures
        picks(best, entries, order, k),
{
    let other = choose|other: Seq<usize>|
        {
            &&& #[trigger] is_ranking(other, entries)
            &&& picks(best, entries, other, k)
        };
    lemma_ranking_unique(other, order, entries);
}

/// Whether entry `x` is ranked ahead of entry `y`.
fn is_ahead(entries: &[(String, u64)], x: usize, y: usize) -> (r: bool)
    requires
        x < entries@.len(),
        y < entries@.len(),
    ensures
        r == ahead(entries@, x as int, y as int),
{
    let a = &entries[x];
    let b = &entries[y];
    if a.1 != b.1 {
        return a.1 > b.1;
    }
    match place_of(a.0.as_str(), b.0.as_str()) {
        Place::Before => true,
        Place::Same => x < y,
        Place::After => {
            proof {
                lemma_precedes_asymmetric(b.0@, a.0@);
            }
            false
        },
    }
}

/// Where entry `x` belongs in a ranking of the entries before it.
fn rank_slot(entries: &[(String, u64)], order: &Vec<usize>, x: usize) -> (p: usize)
    requires
        x < entries@.len(),
        forall|i: int| 0 <= i < order@.len() ==> (#[trigger] order@[i]) < x,
        forall|i: int, j: int|
            0 <= i < j < order@.len() ==> ahead(
                entries@,
                #[trigger] order@[i] as int,
                #[trigger] order@[j] as int,
            ),
    ensures
        p <= order@.len(),
        forall|q: int| 0 <= q < p ==> ahead(entries@, (#[trigger] order@[q]) as int, x as int),
        forall|q: int|
            p <= q < order@.len() ==> ahead(entries@, x as int, (#[trigger] order@[q]) as int),
{
    let mut p: usize = order.len();
    while p > 0
        invariant
            0 <= p <= order@.len(),
            x < entries@.len(),
            forall|i: int| 0 <= i < order@.len() ==> (#[trigger] order@[i]) < x,
            forall|i: int, j: int|
                0 <= i < j < order@.len() ==> ahead(
                    entries@,
                    #[trigger] order@[i] as int,
                    #[trigger] order@[j] as int,
                ),
            forall|q: int|
                p <= q < order@.len() ==> ahead(entries@, x as int, (#[trigger] order@[q]) as int),
        decreases p,
    {
        let y = order[p - 1];
        if !is_ahead(entries, x, y) {
            proof {
                lemma_ahead_total(entries@, x as int, y as int);
                assert forall|q: int| 0 <= q < p implies ahead(
                    entries@,
                    (#[trigger] order@[q]) as int,
                    x as int,
                ) by {
                    if q < p - 1 {
                        lemma_ahead_transitive(entries@, order@[q] as int, y as int, x as int);
                    }
                }
            }
            return p;
        }
        p = p - 1;
    }
    p
}

/// Ranks the entries: the positions of all of them, from the best to the
/// worst.
pub fn ranking(entries: &[(String, u64)]) -> (order: Vec<usize>)
    ensures
        is_ranking(order@, entries@),
{
    let mut order: Vec<usize> = Vec::new();
    let mut x: usize = 0;
    while x < entries.len()
        invariant
            0 <= x <= entries@.len(),
            order@.len() == x,
            forall|i: int| 0 <= i < order@.len() ==> (#[trigger] order@[i]) < x,
            forall|y: int| 0 <= y < x ==> #[trigger] order@.contains(y as usize),
            forall|i: int, j: int|
                0 <= i < j < order@.len() ==> ahead(
                    entries@,
                    #[trigger] order@[i] as int,
                    #[trigger] order@[j] as int,
                ),
        decreases entries@.len() - x,
    {
        let p = rank_slot(entries, &order, x);
        let ghost before = order@;
        order.insert(p, x);
        proof {
            let after = order@;
            assert forall|y: int| 0 <= y < x + 1 implies #[trigger] after.contains(
                y as usize,
            ) by {
                if y < x {
                    assert(before.contains(y as usize));
                    let i = choose|i: int| 0 <= i < before.len() && before[i] == y as usize;
                    let ai = if i < p { i } else { i + 1 };
                    assert(after[ai] == y as usize);
                } else {
                    assert(after[p as int] == x);
                }
            }
            assert forall|i: int, j: int| 0 <= i < j < after.len() implies ahead(
                entries@,
                #[trigger] after[i] as int,
                #[trigger] after[j] as int,
            ) by {
                let bi = if i < p { i } else { i - 1 };
                let bj = if j < p { j } else { j - 1 };
                if i != p && j != p {
                    assert(ahead(entries@, before[bi] as int, before[bj] as int));
                } else if i == p {
                    assert(after[j] == before[bj]);
                } else {
                    assert(after[i] == before[bi]);
                }
            }
        }
        x = x + 1;
    }
    order
}

/// The `k` best entries, best first: those with the greatest scores and,
/// among equal scores, the words that come first in the dictionary.
pub fn top_k(entries: &[(String, u64)], k: usize) -> (best: Vec<(String, u64)>)
    ensures
        is_top(best@, entries@, k as int),
        best@.len() <= k,
        best@.len() <= entries@.len(),
        forall|i: int, j: int|
            0 <= i < j < best@.len() ==> (#[trigger] best@[i]).1 > (#[trigger] best@[j]).1 || (
            best@[i].1 == best@[j].1 && (precedes(best@[i].0@, best@[j].0@) || best@[i].0@
                == best@[j].0@)),
{
    let order = ranking(entries);
    let mut best: Vec<(String, u64)> = Vec::new();
    let mut i: usize = 0;
    while i < k && i < order.len()
        invariant
            0 <= i <= k,
            i <= order@.len(),
            is_ranking(order@, entries@),
            best@.len() == i,
            forall|j: int|
                0 <= j < i ==> (#[trigger] best@[j]).0@ == entries@[order@[j] as int].0@
                    && best@[j].1 == entries@[order@[j] as int].1,
        decreases order@.len() - i,
    {
        let e = &entries[order[i]];
        best.push((e.0.clone(), e.1));
        i = i + 1;
    }
    assert(picks(best@, entries@, order@, k as int));
    assert forall|i: int, j: int| 0 <= i < j < best@.len() implies (#[trigger] best@[i]).1 > (
    #[trigger] best@[j]).1 || (best@[i].1 == best@[j].1 && (precedes(best@[i].0@, best@[j].0@)
        || best@[i].0@ == best@[j].0@)) by {
        assert(ahead(entries@, order@[i] as int, order@[j] as int));
    }
    best
}

} // verus!
