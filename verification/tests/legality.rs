use wordle::{color_state, is_valid};

fn words(list: &[&str]) -> Vec<String> {
    list.iter().map(|w| w.to_string()).collect()
}

#[test]
fn a_guess_must_be_an_acceptable_word() {
    let acceptable = words(&["crane", "slate"]);
    assert!(is_valid("crane", false, &[], &[], &acceptable));
    assert!(is_valid("slate", false, &[], &[], &acceptable));
    assert!(!is_valid("trace", false, &[], &[], &acceptable));
    assert!(!is_valid("trace", true, &[], &[], &acceptable));
}

#[test]
fn a_guess_is_looked_up_in_lowercase() {
    let acceptable = words(&["crane"]);
    assert!(is_valid("CRANE", false, &[], &[], &acceptable));
    assert!(is_valid("CrAnE", true, &[], &[], &acceptable));
    let capitals = words(&["CRANE"]);
    assert!(!is_valid("crane", false, &[], &[], &capitals));
    assert!(!is_valid("CRANE", false, &[], &[], &capitals));
}

#[test]
fn a_guess_must_have_five_characters() {
    let acceptable = words(&["crane", "cran", "cranes", " crane", ""]);
    assert!(!is_valid("cran", false, &[], &[], &acceptable));
    assert!(!is_valid("cranes", false, &[], &[], &acceptable));
    assert!(!is_valid(" crane", false, &[], &[], &acceptable));
    assert!(!is_valid("", false, &[], &[], &acceptable));
}

#[test]
fn nothing_is_legal_without_acceptable_words() {
    assert!(!is_valid("crane", false, &[], &[], &[]));
    assert!(!is_valid("crane", true, &[], &[], &[]));
}

#[test]
fn hard_mode_without_history_is_the_base_rule() {
    let acceptable = words(&["crane", "slate"]);
    assert!(is_valid("crane", true, &[], &[], &acceptable));
    assert!(!is_valid("brave", true, &[], &[], &acceptable));
}

#[test]
fn a_present_letter_must_be_used_again() {
    let acceptable = words(&["trace", "crane", "brave", "grace"]);
    let state = color_state("trace", "crane");
    assert_eq!(state, ['R', 'G', 'G', 'Y', 'G']);
    let guesses = words(&["trace"]);
    assert!(is_valid("crane", true, &guesses, &[state], &acceptable));
    assert!(is_valid("trace", true, &guesses, &[state], &acceptable));
    assert!(is_valid("grace", true, &guesses, &[state], &acceptable));
    assert!(!is_valid("brave", true, &guesses, &[state], &acceptable));
    assert!(is_valid("brave", false, &guesses, &[state], &acceptable));
}

#[test]
fn a_letter_present_twice_must_be_used_twice() {
    let acceptable = words(&["exile", "beech", "bench", "eerie"]);
    let state = color_state("exile", "beech");
    assert_eq!(state, ['Y', 'R', 'R', 'R', 'Y']);
    let guesses = words(&["exile"]);
    assert!(is_valid("beech", true, &guesses, &[state], &acceptable));
    assert!(is_valid("eerie", true, &guesses, &[state], &acceptable));
    assert!(!is_valid("bench", true, &guesses, &[state], &acceptable));
}

#[test]
fn a_correct_letter_does_not_count_as_present() {
    let acceptable = words(&["lolly", "alley", "belly", "bully"]);
    let state = color_state("lolly", "alley");
    assert_eq!(state, ['Y', 'R', 'G', 'R', 'G']);
    let guesses = words(&["lolly"]);
    assert!(is_valid("alley", true, &guesses, &[state], &acceptable));
    assert!(is_valid("belly", true, &guesses, &[state], &acceptable));
    assert!(is_valid("bully", true, &guesses, &[state], &acceptable));
}

#[test]
fn every_turn_of_the_history_binds() {
    let acceptable = words(&["trace", "speed", "abide", "crane", "crude", "grade"]);
    let first = color_state("trace", "crude");
    assert_eq!(first, ['R', 'G', 'R', 'Y', 'G']);
    let second = color_state("speed", "crude");
    assert_eq!(second, ['R', 'R', 'Y', 'R', 'Y']);
    let guesses = words(&["trace", "speed"]);
    let states = [first, second];
    assert!(is_valid("crude", true, &guesses, &states, &acceptable));
    assert!(!is_valid("crane", true, &guesses, &states, &acceptable));
    assert!(is_valid("crane", true, &guesses[..1], &states[..1], &acceptable));
    assert!(!is_valid("grade", true, &guesses, &states, &acceptable));
    assert!(is_valid("grade", true, &guesses[1..], &states[1..], &acceptable));
}

#[test]
fn the_demands_of_two_turns_are_not_added_up() {
    let acceptable = words(&["exile", "beech", "bench"]);
    let state = ['Y', 'R', 'R', 'R', 'R'];
    let guesses = words(&["exile", "exile"]);
    assert!(is_valid("bench", true, &guesses, &[state, state], &acceptable));
}

#[test]
fn hard_mode_accepts_no_more_than_normal_mode() {
    let acceptable = words(&["trace", "crane", "brave", "grace", "slate", "crate"]);
    let state = color_state("trace", "crane");
    let guesses = words(&["trace"]);
    for guess in ["trace", "crane", "brave", "grace", "slate", "crate", "zzzzz", "abc"] {
        let hard = is_valid(guess, true, &guesses, &[state], &acceptable);
        let normal = is_valid(guess, false, &guesses, &[state], &acceptable);
        assert!(!hard || normal);
    }
}

#[test]
fn marks_that_are_no_marks_bind_nothing() {
    let acceptable = words(&["crane", "slate"]);
    let guesses = words(&["crane"]);
    let state = ['g', 'y', 'r', '?', ' '];
    assert!(is_valid("slate", true, &guesses, &[state], &acceptable));
}

#[test]
fn feedback_beyond_the_guesses_is_ignored() {
    let acceptable = words(&["crane", "slate"]);
    let guesses = words(&["crane"]);
    let states = [['R', 'R', 'G', 'R', 'G'], ['G', 'G', 'G', 'G', 'G']];
    assert!(is_valid("slate", true, &guesses, &states, &acceptable));
}
