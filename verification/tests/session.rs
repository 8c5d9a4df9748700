use rand::rngs::StdRng;
use rand::seq::SliceRandom;
use rand::SeedableRng;
use wordle::answers::{answer_at, fresh_answer, given_answer};
use wordle::get_answer_for_day;
use wordle::keyboard_state_update;
use wordle::round::{is_all_correct, Outcome, Round, MAX_ATTEMPTS, UNTRIED};
use wordle::settings::{AnswerSource, SettingsError, DEFAULT_DAY, DEFAULT_SEED};
use wordle::Config;

fn words(list: &[&str]) -> Vec<String> {
    list.iter().map(|w| w.to_string()).collect()
}

fn answers() -> Vec<String> {
    words(&[
        "abide", "brace", "crane", "crate", "craze", "doubt", "eerie", "flint", "grace", "house",
        "input", "joker", "knife", "lolly", "mound", "night", "ocean", "pride", "quilt", "roast",
        "slate", "trace", "under", "vivid", "wheat", "xenon", "yield", "zebra",
    ])
}

#[test]
fn the_answer_of_a_day_follows_the_seeded_shuffle() {
    let list = answers();
    for seed in [0u64, 1, 2, 42, u64::MAX] {
        let mut shuffled = list.clone();
        let mut rng = StdRng::seed_from_u64(seed);
        shuffled.shuffle(&mut rng);
        for day in 1..=list.len() as u32 {
            assert_eq!(get_answer_for_day(day, seed, &list), shuffled[(day - 1) as usize]);
        }
    }
}

#[test]
fn the_days_run_through_every_answer_once() {
    let list = answers();
    let mut seen: Vec<String> = (1..=list.len() as u32)
        .map(|day| get_answer_for_day(day, 1, &list))
        .collect();
    assert_ne!(seen, list);
    seen.sort();
    assert_eq!(seen, list);
}

#[test]
fn two_days_have_two_answers() {
    let list = answers();
    for seed in [0u64, 1, 99] {
        for day in 1..=list.len() as u32 {
            for other in day + 1..=list.len() as u32 {
                assert_ne!(
                    get_answer_for_day(day, seed, &list),
                    get_answer_for_day(other, seed, &list)
                );
            }
        }
    }
}

#[test]
fn the_same_seed_gives_the_same_answer() {
    let list = answers();
    assert_eq!(get_answer_for_day(3, 7, &list), get_answer_for_day(3, 7, &list));
    let by_one: Vec<String> = (1..=28).map(|d| get_answer_for_day(d, 1, &list)).collect();
    let by_two: Vec<String> = (1..=28).map(|d| get_answer_for_day(d, 2, &list)).collect();
    assert_ne!(by_one, by_two);
    assert_eq!(get_answer_for_day(1, 5, &words(&["crane"])), "crane");
}

#[test]
fn day_one_is_the_first_word() {
    let list = words(&["crane", "slate", "trace"]);
    assert_eq!(answer_at(&list, 1), "crane");
    assert_eq!(answer_at(&list, 3), "trace");
}

#[test]
fn a_given_answer_must_be_one_of_the_answers() {
    let list = words(&["crane", "slate"]);
    assert_eq!(given_answer("crane", &list), Some("crane".to_string()));
    assert_eq!(given_answer("CRANE", &list), Some("crane".to_string()));
    assert_eq!(given_answer("Slate", &list), Some("slate".to_string()));
    assert_eq!(given_answer("trace", &list), None);
    assert_eq!(given_answer(" crane", &list), None);
    assert_eq!(given_answer("crane", &[]), None);
}

#[test]
fn a_fresh_answer_has_not_been_played() {
    let list = answers();
    let mut played: Vec<String> = Vec::new();
    for _ in 0..list.len() {
        let next = fresh_answer(&list, &played).expect("an answer is left");
        assert!(list.contains(&next));
        assert!(!played.contains(&next));
        played.push(next);
    }
    assert_eq!(fresh_answer(&list, &played), None);
    played.sort();
    assert_eq!(played, list);
}

#[test]
fn the_last_fresh_answer_is_the_one_not_played() {
    let list = words(&["crane", "slate", "trace"]);
    let played = words(&["trace", "crane"]);
    assert_eq!(fresh_answer(&list, &played), Some("slate".to_string()));
    assert_eq!(fresh_answer(&[], &[]), None);
}

#[test]
fn a_round_is_won_by_the_answer() {
    let acceptable = words(&["crane", "crate", "slate", "trace"]);
    let mut round = Round::new("crate".to_string());
    assert_eq!(round.attempts(), 0);
    assert_eq!(round.keyboard_state, [UNTRIED; 26]);
    assert_eq!(round.play("slate", false, &acceptable), Outcome::Open);
    assert_eq!(round.play("CRATE", false, &acceptable), Outcome::Won);
    assert_eq!(round.attempts(), 2);
    assert_eq!(round.guess_history, words(&["slate", "crate"]));
    assert_eq!(
        round.state_history,
        vec![['R', 'R', 'G', 'G', 'G'], ['G', 'G', 'G', 'G', 'G']]
    );
}

#[test]
fn a_round_is_lost_with_the_sixth_miss() {
    assert_eq!(MAX_ATTEMPTS, 6);
    let acceptable = words(&["crane", "crate", "slate", "trace"]);
    let mut round = Round::new("crate".to_string());
    for _ in 0..5 {
        assert_eq!(round.play("slate", false, &acceptable), Outcome::Open);
    }
    assert_eq!(round.play("trace", false, &acceptable), Outcome::Lost);
    assert_eq!(round.attempts(), 6);
}

#[test]
fn the_sixth_guess_can_still_win() {
    let acceptable = words(&["crane", "crate", "slate", "trace"]);
    let mut round = Round::new("crate".to_string());
    for _ in 0..5 {
        assert_eq!(round.play("slate", false, &acceptable), Outcome::Open);
    }
    assert_eq!(round.play("crate", false, &acceptable), Outcome::Won);
}

#[test]
fn a_guess_that_is_not_legal_leaves_the_round_alone() {
    let acceptable = words(&["crane", "crate", "slate", "trace"]);
    let mut round = Round::new("crate".to_string());
    assert_eq!(round.play("zebra", false, &acceptable), Outcome::Invalid);
    assert_eq!(round.play("cran", false, &acceptable), Outcome::Invalid);
    assert_eq!(round.attempts(), 0);
    assert_eq!(round.keyboard_state, [UNTRIED; 26]);
    assert_eq!(round.play("crane", true, &acceptable), Outcome::Open);
    assert_eq!(round.play("slate", true, &acceptable), Outcome::Invalid);
    assert_eq!(round.attempts(), 1);
    assert_eq!(round.guess_history, words(&["crane"]));
    assert_eq!(round.play("slate", false, &acceptable), Outcome::Open);
    assert_eq!(round.attempts(), 2);
}

#[test]
fn the_keyboard_follows_the_round() {
    let acceptable = words(&["crane", "crate", "slate", "trace"]);
    let mut round = Round::new("crate".to_string());
    round.play("trace", false, &acceptable);
    assert_eq!(round.state_history[0], ['Y', 'G', 'G', 'Y', 'G']);
    let mut expected = [UNTRIED; 26];
    expected[(b't' - b'a') as usize] = 'Y';
    expected[(b'r' - b'a') as usize] = 'G';
    expected[0] = 'G';
    expected[(b'c' - b'a') as usize] = 'Y';
    expected[(b'e' - b'a') as usize] = 'G';
    assert_eq!(round.keyboard_state, expected);
    round.play("slate", false, &acceptable);
    expected[(b's' - b'a') as usize] = 'R';
    expected[(b'l' - b'a') as usize] = 'R';
    expected[(b't' - b'a') as usize] = 'G';
    assert_eq!(round.keyboard_state, expected);
}

#[test]
fn a_key_keeps_its_strongest_mark() {
    let mut keys = ['X'; 26];
    keyboard_state_update(&mut keys, "lolly", ['Y', 'R', 'G', 'R', 'G']);
    assert_eq!(keys[(b'l' - b'a') as usize], 'G');
    assert_eq!(keys[(b'o' - b'a') as usize], 'R');
    assert_eq!(keys[(b'y' - b'a') as usize], 'G');
    assert_eq!(keys[0], 'X');
    keyboard_state_update(&mut keys, "LOYAL", ['R', 'Y', 'Y', 'R', 'R']);
    assert_eq!(keys[(b'l' - b'a') as usize], 'G');
    assert_eq!(keys[(b'o' - b'a') as usize], 'Y');
    assert_eq!(keys[(b'y' - b'a') as usize], 'G');
    assert_eq!(keys[0], 'R');
    keyboard_state_update(&mut keys, "aorta", ['?', 'R', 'R', 'R', 'Y']);
    assert_eq!(keys[0], 'Y');
    assert_eq!(keys[(b'o' - b'a') as usize], 'Y');
    assert_eq!(keys[(b'r' - b'a') as usize], 'R');
    assert_eq!(keys[(b't' - b'a') as usize], 'R');
}

#[test]
fn a_character_that_is_no_mark_changes_no_key() {
    let mut keys = ['X'; 26];
    keys[2] = '?';
    keyboard_state_update(&mut keys, "crane", ['x', 'g', ' ', 'y', '1']);
    let mut expected = ['X'; 26];
    expected[2] = '?';
    assert_eq!(keys, expected);
    keyboard_state_update(&mut keys, "crane", ['R', 'R', 'R', 'R', 'R']);
    assert_eq!(keys[2], 'R');
}

#[test]
fn all_correct_is_five_times_correct() {
    assert!(is_all_correct(&['G', 'G', 'G', 'G', 'G']));
    assert!(!is_all_correct(&['G', 'G', 'G', 'G', 'Y']));
    assert!(!is_all_correct(&['R', 'G', 'G', 'G', 'G']));
    assert!(!is_all_correct(&['g', 'g', 'g', 'g', 'g']));
}

fn config() -> Config {
    Config::default()
}

#[test]
fn default_settings_say_nothing() {
    let c = Config::default();
    assert_eq!(c.random, None);
    assert_eq!(c.difficult, None);
    assert_eq!(c.stats, None);
    assert_eq!(c.day, None);
    assert_eq!(c.seed, None);
    assert_eq!(c.final_set, None);
    assert_eq!(c.acceptable_set, None);
    assert_eq!(c.state, None);
    assert_eq!(c.word, None);
    assert!(!c.hard_mode());
    assert!(!c.show_stats());
}

#[test]
fn the_command_line_wins_over_the_file() {
    let cli = Config {
        day: Some(3),
        word: None,
        final_set: Some("a.txt".to_string()),
        difficult: Some(true),
        ..config()
    };
    let file = Config {
        day: Some(9),
        seed: Some(5),
        final_set: Some("b.txt".to_string()),
        acceptable_set: Some("c.txt".to_string()),
        state: Some("s.json".to_string()),
        word: Some("crane".to_string()),
        stats: Some(true),
        random: Some(false),
        ..config()
    };
    let c = Config::merge(cli, file);
    assert_eq!(c.day, Some(3));
    assert_eq!(c.seed, Some(5));
    assert_eq!(c.final_set, Some("a.txt".to_string()));
    assert_eq!(c.acceptable_set, Some("c.txt".to_string()));
    assert_eq!(c.state, Some("s.json".to_string()));
    assert_eq!(c.word, Some("crane".to_string()));
    assert_eq!(c.difficult, Some(true));
    assert_eq!(c.stats, Some(true));
    assert_eq!(c.random, Some(false));
    assert!(c.hard_mode());
    assert!(c.show_stats());
}

#[test]
fn a_switch_is_on_if_either_place_turns_it_on() {
    let c = Config::merge(
        Config { random: Some(false), ..config() },
        Config { random: Some(true), ..config() },
    );
    assert_eq!(c.random, Some(true));
    let c = Config::merge(config(), config());
    assert_eq!(c.random, Some(false));
    assert_eq!(c.difficult, Some(false));
    assert_eq!(c.stats, Some(false));
    assert_eq!(c.day, None);
}

#[test]
fn a_word_excludes_a_schedule() {
    let word = Some("crane".to_string());
    assert_eq!(Config { word: word.clone(), ..config() }.check_command_line(), Ok(()));
    assert_eq!(Config { day: Some(1), seed: Some(2), random: Some(true), ..config() }.check_command_line(), Ok(()));
    assert_eq!(
        Config { word: word.clone(), day: Some(1), ..config() }.check_command_line(),
        Err(SettingsError::WordWithSchedule)
    );
    assert_eq!(
        Config { word: word.clone(), seed: Some(1), ..config() }.check_command_line(),
        Err(SettingsError::WordWithSchedule)
    );
    assert_eq!(
        Config { word: word.clone(), random: Some(true), ..config() }.check_command_line(),
        Err(SettingsError::WordWithSchedule)
    );
    assert_eq!(
        Config { word, random: Some(false), ..config() }.check_command_line(),
        Ok(())
    );
}

#[test]
fn the_day_must_be_one_of_the_answers() {
    assert_eq!(Config { day: Some(10), ..config() }.check(10), Ok(()));
    assert_eq!(Config { day: Some(11), ..config() }.check(10), Err(SettingsError::DayOutOfRange));
    assert_eq!(config().check(1), Ok(()));
    assert_eq!(config().check(0), Err(SettingsError::DayOutOfRange));
    assert_eq!(Config { day: Some(0), ..config() }.check(0), Ok(()));
}

#[test]
fn answers_need_acceptable_words() {
    let a = Some("a.txt".to_string());
    assert_eq!(
        Config { final_set: a.clone(), ..config() }.check(10),
        Err(SettingsError::MissingAcceptableSet)
    );
    assert_eq!(
        Config { final_set: a.clone(), acceptable_set: a.clone(), ..config() }.check(10),
        Ok(())
    );
    assert_eq!(Config { acceptable_set: a.clone(), ..config() }.check(10), Ok(()));
    assert_eq!(
        Config { final_set: a, day: Some(11), ..config() }.check(10),
        Err(SettingsError::DayOutOfRange)
    );
}

#[test]
fn the_source_of_the_answers() {
    assert_eq!((DEFAULT_DAY, DEFAULT_SEED), (1, 1));
    assert!(matches!(config().answer_source(), AnswerSource::Typed));
    assert!(matches!(
        Config { random: Some(false), ..config() }.answer_source(),
        AnswerSource::Typed
    ));
    assert!(matches!(
        Config { random: Some(true), ..config() }.answer_source(),
        AnswerSource::Random
    ));
    assert!(matches!(
        Config { random: Some(true), day: Some(4), ..config() }.answer_source(),
        AnswerSource::Scheduled { day: 4, seed: 1 }
    ));
    assert!(matches!(
        Config { seed: Some(9), ..config() }.answer_source(),
        AnswerSource::Scheduled { day: 1, seed: 9 }
    ));
    match (Config { word: Some("crane".to_string()), day: Some(4), random: Some(true), ..config() })
        .answer_source()
    {
        AnswerSource::Given(w) => assert_eq!(w, "crane"),
        _ => panic!("the word is given"),
    }
}
