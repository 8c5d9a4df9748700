use wordle::display::{shown_words, tint_of, tinted_guess, tinted_keyboard, Tint, LISTING_LIMIT};

#[test]
fn every_mark_has_its_colour() {
    assert_eq!(tint_of('G'), Tint::Green);
    assert_eq!(tint_of('Y'), Tint::Yellow);
    assert_eq!(tint_of('R'), Tint::Red);
    assert_eq!(tint_of('X'), Tint::White);
    assert_eq!(tint_of('g'), Tint::White);
}

#[test]
fn a_guess_is_shown_letter_by_letter() {
    let shown = tinted_guess(['G', 'Y', 'R', 'X', 'G'], "CRANE");
    assert_eq!(
        shown,
        vec![
            ('C', Tint::Green),
            ('R', Tint::Yellow),
            ('A', Tint::Red),
            ('N', Tint::White),
            ('E', Tint::Green),
        ]
    );
    assert_eq!(tinted_guess(['G'; 5], "ab"), vec![('a', Tint::Green), ('b', Tint::Green)]);
    assert!(tinted_guess(['G'; 5], "").is_empty());
}

#[test]
fn the_keyboard_is_shown_from_a_to_z() {
    let mut keys = ['X'; 26];
    keys[0] = 'G';
    keys[1] = 'Y';
    keys[25] = 'R';
    let shown = tinted_keyboard(&keys);
    assert_eq!(shown.len(), 26);
    assert_eq!(shown[0], ('A', Tint::Green));
    assert_eq!(shown[1], ('B', Tint::Yellow));
    assert_eq!(shown[2], ('C', Tint::White));
    assert_eq!(shown[25], ('Z', Tint::Red));
    let letters: String = shown.iter().map(|(c, _)| *c).collect();
    assert_eq!(letters, "ABCDEFGHIJKLMNOPQRSTUVWXYZ");
}

#[test]
fn a_long_list_is_shown_in_part() {
    assert_eq!(LISTING_LIMIT, 50);
    let list: Vec<String> = (0..120).map(|i| format!("w{:03}", i)).collect();
    assert_eq!(shown_words(&list), &list[..50]);
    assert_eq!(shown_words(&list[..50]), &list[..50]);
    assert_eq!(shown_words(&list[..51]), &list[..50]);
    assert_eq!(shown_words(&list[..3]), &list[..3]);
    assert!(shown_words(&[]).is_empty());
}
