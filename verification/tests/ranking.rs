use wordle::order::{contains_word, insert_word, place_of, Place};
use wordle::ranking::{ranking, top_k};

fn entries(list: &[(&str, u64)]) -> Vec<(String, u64)> {
    list.iter().map(|(w, n)| (w.to_string(), *n)).collect()
}

#[test]
fn the_greater_score_comes_first() {
    let e = entries(&[("crane", 1), ("slate", 7), ("trace", 3)]);
    assert_eq!(ranking(&e), vec![1, 2, 0]);
    assert_eq!(top_k(&e, 3), entries(&[("slate", 7), ("trace", 3), ("crane", 1)]));
}

#[test]
fn equal_scores_go_by_the_word() {
    let e = entries(&[("trace", 2), ("crane", 2), ("slate", 2), ("abide", 1)]);
    assert_eq!(ranking(&e), vec![1, 2, 0, 3]);
    assert_eq!(top_k(&e, 2), entries(&[("crane", 2), ("slate", 2)]));
}

#[test]
fn like_entries_keep_their_order() {
    let e = entries(&[("crane", 2), ("abide", 2), ("crane", 2)]);
    assert_eq!(ranking(&e), vec![1, 0, 2]);
}

#[test]
fn no_more_than_k_and_no_more_than_there_are() {
    let e = entries(&[("crane", 1), ("slate", 7), ("trace", 3)]);
    assert_eq!(top_k(&e, 0), entries(&[]));
    assert_eq!(top_k(&e, 1), entries(&[("slate", 7)]));
    assert_eq!(top_k(&e, 5).len(), 3);
    assert_eq!(top_k(&[], 5), entries(&[]));
    assert_eq!(ranking(&[]), Vec::<usize>::new());
}

#[test]
fn the_best_five_of_many() {
    let e: Vec<(String, u64)> = (0..40u64)
        .map(|i| (format!("w{:02}", i), (i * 7) % 11))
        .collect();
    let best = top_k(&e, 5);
    let mut expected = e.clone();
    expected.sort_by(|a, b| b.1.cmp(&a.1).then_with(|| a.0.cmp(&b.0)));
    expected.truncate(5);
    assert_eq!(best, expected);
    for pair in best.windows(2) {
        assert!(pair[0].1 > pair[1].1 || (pair[0].1 == pair[1].1 && pair[0].0 < pair[1].0));
    }
}

#[test]
fn strings_are_compared_in_dictionary_order() {
    assert_eq!(place_of("crane", "crate"), Place::Before);
    assert_eq!(place_of("crate", "crane"), Place::After);
    assert_eq!(place_of("crane", "crane"), Place::Same);
    assert_eq!(place_of("", ""), Place::Same);
    assert_eq!(place_of("", "a"), Place::Before);
    assert_eq!(place_of("cran", "crane"), Place::Before);
    assert_eq!(place_of("crane", "cran"), Place::After);
    assert_eq!(place_of("Zebra", "apple"), Place::Before);
    assert_eq!(place_of("z", "\u{e9}"), Place::Before);
    assert_eq!(place_of("b", "abc"), Place::After);
}

#[test]
fn dictionary_order_is_the_order_of_strings() {
    let list = ["", "a", "A", "abc", "abd", "ab", "crane", "crate", "Crane", "\u{e9}t\u{e9}", "zz"];
    for a in list {
        for b in list {
            let expected = if a < b {
                Place::Before
            } else if a == b {
                Place::Same
            } else {
                Place::After
            };
            assert_eq!(place_of(a, b), expected);
        }
    }
}

#[test]
fn a_word_is_inserted_at_its_place_once() {
    let mut list: Vec<String> = Vec::new();
    for w in ["slate", "crane", "trace", "crane", "abide", "trace"] {
        insert_word(&mut list, &w.to_string());
    }
    assert_eq!(list, vec!["abide", "crane", "slate", "trace"]);
    assert!(contains_word(&list, "slate"));
    assert!(!contains_word(&list, "SLATE"));
    assert!(!contains_word(&list, "slat"));
    assert!(!contains_word(&[], "slate"));
}
