use wordle::feedback::{ABSENT, CORRECT, PRESENT};
use wordle::letters::is_word_str;
use wordle::{color_state, find_remaining_words, is_valid};

fn words(list: &[&str]) -> Vec<String> {
    list.iter().map(|w| w.to_string()).collect()
}

#[test]
fn marks_are_the_three_letters() {
    assert_eq!(CORRECT, 'G');
    assert_eq!(PRESENT, 'Y');
    assert_eq!(ABSENT, 'R');
}

#[test]
fn a_word_against_itself_is_all_correct() {
    assert_eq!(color_state("CRANE", "CRANE"), ['G', 'G', 'G', 'G', 'G']);
    assert_eq!(color_state("crane", "crane"), ['G', 'G', 'G', 'G', 'G']);
    assert_eq!(color_state("zzzzz", "zzzzz"), ['G', 'G', 'G', 'G', 'G']);
}

#[test]
fn letters_are_compared_without_regard_to_case() {
    assert_eq!(color_state("Crane", "cRANE"), ['G', 'G', 'G', 'G', 'G']);
    assert_eq!(color_state("speed", "ABIDE"), ['R', 'R', 'Y', 'R', 'Y']);
}

#[test]
fn nothing_in_common_is_all_absent() {
    assert_eq!(color_state("crane", "build"), ['R', 'R', 'R', 'R', 'R']);
}

#[test]
fn abbey_against_babes() {
    assert_eq!(color_state("ABBEY", "BABES"), ['Y', 'Y', 'G', 'G', 'R']);
    assert_eq!(color_state("BABES", "ABBEY"), ['Y', 'Y', 'G', 'G', 'R']);
}

#[test]
fn scoring_is_not_symmetric() {
    assert_eq!(color_state("SPEED", "ABIDE"), ['R', 'R', 'Y', 'R', 'Y']);
    assert_eq!(color_state("ABIDE", "SPEED"), ['R', 'R', 'R', 'Y', 'Y']);
    assert_ne!(color_state("SPEED", "ABIDE"), color_state("ABIDE", "SPEED"));
}

#[test]
fn a_letter_guessed_three_times_and_held_twice_earns_two_marks() {
    let state = color_state("LOLLY", "ALLEY");
    assert_eq!(state, ['Y', 'R', 'G', 'R', 'G']);
    let shown = "LOLLY"
        .chars()
        .zip(state.iter())
        .filter(|(c, m)| *c == 'L' && **m != 'R')
        .count();
    assert_eq!(shown, 2);
}

#[test]
fn correct_letters_are_served_before_present_ones() {
    assert_eq!(color_state("EXILE", "BEECH"), ['Y', 'R', 'R', 'R', 'Y']);
    assert_eq!(color_state("EERIE", "THEME"), ['Y', 'R', 'R', 'R', 'G']);
    assert_eq!(color_state("GEESE", "ELEGY"), ['Y', 'Y', 'G', 'R', 'R']);
}

#[test]
fn correct_marks_are_the_letters_in_place() {
    let pairs = [("TRACE", "CRANE"), ("SLATE", "CRANE"), ("LOLLY", "ALLEY"), ("SPEED", "ABIDE")];
    for (g, a) in pairs {
        let state = color_state(g, a);
        for i in 0..5 {
            let same = g.as_bytes()[i] == a.as_bytes()[i];
            assert_eq!(state[i] == 'G', same);
        }
    }
}

#[test]
fn marks_of_a_letter_are_the_smaller_of_its_two_counts() {
    let pairs = [("TRACE", "CRANE"), ("LOLLY", "ALLEY"), ("EXILE", "BEECH"), ("GEESE", "ELEGY")];
    for (g, a) in pairs {
        let state = color_state(g, a);
        for letter in b'A'..=b'Z' {
            let in_guess = g.bytes().filter(|b| *b == letter).count();
            let in_answer = a.bytes().filter(|b| *b == letter).count();
            let shown = (0..5)
                .filter(|i| g.as_bytes()[*i] == letter && state[*i] != 'R')
                .count();
            assert_eq!(shown, in_guess.min(in_answer));
        }
    }
}

#[test]
fn trace_against_crane_then_crane() {
    let dictionary = words(&["CRANE", "SLATE", "TRACE"]);
    assert_eq!(color_state("TRACE", "CRANE"), ['R', 'G', 'G', 'Y', 'G']);
    let state = color_state("CRANE", "CRANE");
    assert_eq!(state, ['G', 'G', 'G', 'G', 'G']);
    let left = find_remaining_words(&dictionary, &words(&["CRANE"]), &[state]);
    assert_eq!(left, words(&["CRANE"]));
}

#[test]
fn hard_mode_after_crane_against_crate() {
    let acceptable = words(&[
        "crane", "crate", "craze", "brace", "crony", "grate", "crabs", "chase",
    ]);
    let state = color_state("crane", "crate");
    assert_eq!(state, ['G', 'G', 'G', 'R', 'G']);
    let guesses = words(&["crane"]);
    let states = [state];
    assert!(is_valid("crate", true, &guesses, &states, &acceptable));
    assert!(is_valid("craze", true, &guesses, &states, &acceptable));
    assert!(!is_valid("brace", true, &guesses, &states, &acceptable));
    assert!(!is_valid("grate", true, &guesses, &states, &acceptable));
    assert!(!is_valid("chase", true, &guesses, &states, &acceptable));
    assert!(!is_valid("crony", true, &guesses, &states, &acceptable));
    assert!(!is_valid("crabs", true, &guesses, &states, &acceptable));
    assert!(is_valid("brace", false, &guesses, &states, &acceptable));
}

#[test]
fn words_have_five_letters() {
    assert!(is_word_str("crane"));
    assert!(is_word_str("CRANE"));
    assert!(is_word_str("CrAnE"));
    assert!(!is_word_str(""));
    assert!(!is_word_str("cran"));
    assert!(!is_word_str("cranes"));
    assert!(!is_word_str("cran3"));
    assert!(!is_word_str("cr ne"));
    assert!(!is_word_str("cr{ne"));
    assert!(!is_word_str("cr@ne"));
    assert!(!is_word_str("\u{e9}cran"));
    assert!(!is_word_str("\u{e9}abc"));
}
