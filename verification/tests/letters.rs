use wordle::letters::{
    byte_is_letter, byte_slot, char_slot, fold_char, is_word_str, slots_of, word_bytes,
};
use wordle::solver::{parse_command, Command, CommandError};

fn every_char() -> impl Iterator<Item = char> {
    (0u32..=0x10ffff).filter_map(char::from_u32)
}

#[test]
fn lowercase_is_that_of_the_ascii_letters() {
    for c in every_char() {
        assert_eq!(fold_char(c), c.to_ascii_lowercase());
    }
    assert_eq!(fold_char('A'), 'a');
    assert_eq!(fold_char('Z'), 'z');
    assert_eq!(fold_char('q'), 'q');
    assert_eq!(fold_char('\u{c9}'), '\u{c9}');
}

#[test]
fn every_letter_has_its_slot() {
    for c in every_char() {
        let expected = if c.is_ascii_alphabetic() {
            (c.to_ascii_lowercase() as u8 - b'a') as usize
        } else {
            26
        };
        assert_eq!(char_slot(c), expected);
    }
    assert_eq!(char_slot('a'), 0);
    assert_eq!(char_slot('A'), 0);
    assert_eq!(char_slot('z'), 25);
    assert_eq!(char_slot('Z'), 25);
    assert_eq!(char_slot('['), 26);
    assert_eq!(char_slot('`'), 26);
    assert_eq!(char_slot('{'), 26);
    assert_eq!(char_slot('@'), 26);
}

#[test]
fn bytes_that_hold_letters() {
    for b in 0u8..=255 {
        assert_eq!(byte_is_letter(b), b.is_ascii_alphabetic());
        if b.is_ascii_alphabetic() {
            assert_eq!(byte_slot(b), (b.to_ascii_lowercase() - b'a') as usize);
        }
    }
}

#[test]
fn the_slots_of_five_characters() {
    assert_eq!(slots_of("crane"), [2, 17, 0, 13, 4]);
    assert_eq!(slots_of("CRANE"), [2, 17, 0, 13, 4]);
    assert_eq!(slots_of("a1 Z\u{e9}"), [0, 26, 26, 25, 26]);
}

#[test]
fn the_bytes_of_a_word() {
    assert_eq!(word_bytes("crane"), b"crane");
    assert_eq!(word_bytes("CrAnE"), b"CrAnE");
    assert!(is_word_str("CrAnE"));
}

#[test]
fn blanks_are_the_characters_with_the_property_white_space() {
    for c in every_char() {
        let line = format!("quit{}", c);
        match parse_command(&line) {
            Ok(Command::Quit) => assert!(c.is_whitespace()),
            Err(CommandError::Format) => assert!(!c.is_whitespace()),
            other => panic!("a single word was entered, not {:?}", other),
        }
    }
}
