use wordle::dictionary::WordSetError;
use wordle::validate_word_sets;

fn words(list: &[&str]) -> Vec<String> {
    list.iter().map(|w| w.to_string()).collect()
}

#[test]
fn good_lists_come_back_in_lowercase_and_in_order() {
    let answers = words(&["SLATE", "crane"]);
    let acceptable = words(&["trace", "Slate", "CRANE", "abide"]);
    let r = validate_word_sets(&answers, &acceptable);
    assert_eq!(
        r,
        Ok((words(&["crane", "slate"]), words(&["abide", "crane", "slate", "trace"])))
    );
}

#[test]
fn empty_lists_are_good() {
    assert_eq!(validate_word_sets(&[], &[]), Ok((vec![], vec![])));
    assert_eq!(
        validate_word_sets(&[], &words(&["crane"])),
        Ok((vec![], words(&["crane"])))
    );
}

#[test]
fn a_word_twice_is_refused() {
    let r = validate_word_sets(&words(&["crane", "slate", "crane"]), &words(&["crane", "slate"]));
    assert_eq!(r, Err(WordSetError::Duplicate));
    let r = validate_word_sets(&words(&["crane"]), &words(&["crane", "slate", "slate"]));
    assert_eq!(r, Err(WordSetError::Duplicate));
}

#[test]
fn a_word_twice_in_different_case_is_refused() {
    let r = validate_word_sets(&words(&["crane", "CRANE"]), &words(&["crane"]));
    assert_eq!(r, Err(WordSetError::Duplicate));
}

#[test]
fn a_line_that_is_no_word_is_refused() {
    for bad in ["cran", "cranes", "", "cr4ne", "cr ne", "\u{e9}cran", "\u{e9}abc"] {
        let r = validate_word_sets(&words(&["crane", bad]), &words(&["crane", bad]));
        assert_eq!(r, Err(WordSetError::Malformed));
        let r = validate_word_sets(&words(&["crane"]), &words(&["crane", bad]));
        assert_eq!(r, Err(WordSetError::Malformed));
    }
}

#[test]
fn an_answer_must_be_acceptable() {
    let r = validate_word_sets(&words(&["crane", "slate"]), &words(&["crane", "trace"]));
    assert_eq!(r, Err(WordSetError::NotSubset));
    let r = validate_word_sets(&words(&["crane"]), &[]);
    assert_eq!(r, Err(WordSetError::NotSubset));
    let r = validate_word_sets(&words(&["zebra"]), &words(&["crane", "trace"]));
    assert_eq!(r, Err(WordSetError::NotSubset));
    let r = validate_word_sets(&words(&["abide"]), &words(&["crane", "trace"]));
    assert_eq!(r, Err(WordSetError::NotSubset));
}

#[test]
fn a_repeated_word_is_reported_before_a_malformed_line() {
    let r = validate_word_sets(&words(&["cran", "slate", "slate"]), &words(&["slate"]));
    assert_eq!(r, Err(WordSetError::Duplicate));
    let r = validate_word_sets(&words(&["cran", "cran"]), &words(&["slate"]));
    assert_eq!(r, Err(WordSetError::Duplicate));
}

#[test]
fn the_answers_are_looked_at_first() {
    let r = validate_word_sets(&words(&["cran"]), &words(&["slate", "slate"]));
    assert_eq!(r, Err(WordSetError::Malformed));
    let r = validate_word_sets(&words(&["crane", "crane"]), &words(&["slat"]));
    assert_eq!(r, Err(WordSetError::Duplicate));
    let r = validate_word_sets(&words(&["zebra"]), &words(&["slat"]));
    assert_eq!(r, Err(WordSetError::Malformed));
    let r = validate_word_sets(&words(&["zebra"]), &words(&["slate", "slate"]));
    assert_eq!(r, Err(WordSetError::Duplicate));
}
