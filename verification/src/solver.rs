//! The solver's dialogue: the lines that a player may enter, and what each
//! of them leads to.
//!
//! A line is one of the words `quit`, `win`, `rec` and `left`, or a guess
//! followed by the five marks that it earned. Letters are taken without
//! regard to case, and blanks around the words are ignored.

use vstd::prelude::*;
use vstd::utf8::is_ascii_chars;
use crate::candidates::{all_words, find_remaining_words, guesses_ok, is_remaining};
use crate::letters::{
    ascii_lowercase, folded, is_word, is_word_str, lemma_case_keeps_word, raise, raised,
};
use crate::order::{contains_word, listed, place_of, texts, Place};
use crate::partition::{is_survey, survey, Survey};
use crate::text::{char_is_space, chars_of, next_solid, next_space};

verus! {

/// What a line asks for.
#[derive(Debug)]
pub enum Command {
    /// Leave the solver.
    Quit,
    /// The player has won.
    Win,
    /// Recommend the next guess.
    Recommend,
    /// List the words that are left.
    Left,
    /// Record a turn.
    Turn {
        /// The guess, in lowercase.
        guess: String,
        /// The marks that the guess earned, in uppercase.
        state: [char; 5],
    },
}

/// Why a line is refused.
#[derive(Clone, Copy, PartialEq, Eq, Structural, Debug)]
pub enum CommandError {
    /// The line is none of the four words and does not hold two words.
    Format,
    /// The guess or the marks are not five characters of one byte each.
    Length,
    /// The guess holds a character that is no letter.
    NotAWord,
}

/// What a line says, as a value of specifications.
pub enum Request {
    /// Leave the solver.
    Quit,
    /// The player has won.
    Win,
    /// Recommend the next guess.
    Recommend,
    /// List the words that are left.
    Left,
    /// Record a turn.
    Turn {
        /// The guess, in lowercase.
        guess: Seq<char>,
        /// The marks, in uppercase.
        state: Seq<char>,
    },
    /// The line is refused.
    Bad(CommandError),
}

impl View for Command {
    type V = Request;

    /// What the command says, with its guess and marks as sequences.
    open spec fn view(&self) -> Request {
        match *self {
            Command::Quit => Request::Quit,
            Command::Win => Request::Win,
            Command::Recommend => Request::Recommend,
            Command::Left => Request::Left,
            Command::Turn { guess, state } => Request::Turn { guess: guess@, state: state@ },
        }
    }
}

/// What a single word asks for.
pub open spec fn keyword(word: Seq<char>) -> Request {
    if word == "quit"@ {
        Request::Quit
    } else if word == "win"@ {
        Request::Win
    } else if word == "rec"@ {
        Request::Recommend
    } else if word == "left"@ {
        Request::Left
    } else {
        Request::Bad(CommandError::Format)
    }
}

/// Five characters, each of them an ASCII character: what takes five
/// bytes and holds five characters.
pub open spec fn five_plain(s: Seq<char>) -> bool {
    s.len() == 5 && is_ascii_chars(s)
}

/// What a guess and its marks ask for.
///
/// Both must be five characters of one byte each, and the guess must be
/// made of letters. What the marks are is left open.
pub open spec fn turn(guess: Seq<char>, state: Seq<char>) -> Request {
    if !five_plain(guess) || !five_plain(state) {
        Request::Bad(CommandError::Length)
    } else if !is_word(guess) {
        Request::Bad(CommandError::NotAWord)
    } else {
        Request::Turn { guess: folded(guess), state: raised(state) }
    }
}

/// What a line asks for.
///
/// The line is cut into words at its blanks. One word is looked up among
/// the four that the solver knows, two words are a guess and its marks,
/// and every other number of words is refused.
pub open spec fn request_of(line: Seq<char>) -> Request {
    let s0 = next_solid(line, 0);
    let e0 = next_space(line, s0);
    let s1 = next_solid(line, e0);
    let e1 = next_space(line, s1);
    let s2 = next_solid(line, e1);
    if s0 >= line.len() {
        Request::Bad(CommandError::Format)
    } else if s1 >= line.len() {
        keyword(folded(line.subrange(s0, e0)))
    } else if s2 < line.len() {
        Request::Bad(CommandError::Format)
    } else {
        turn(line.subrange(s0, e0), line.subrange(s1, e1))
    }
}

/// The uppercase form of a character.
fn raise_char(c: char) -> (r: char)
    ensures
        r == raise(c),
{
    if 'a' <= c && c <= 'z' {
        ((c as u8) - 32) as char
    } else {
        c
    }
}

/// Moves from `i` to the next position that holds a blank, or no blank,
/// as `space` says.
fn scan(line: &str, n: usize, i: usize, space: bool) -> (j: usize)
    requires
        n == line@.len(),
        i <= n,
    ensures
        i <= j <= n,
        j == if space {
            next_space(line@, i as int)
        } else {
            next_solid(line@, i as int)
        },
{
    let mut j: usize = i;
    while j < n
        invariant
            i <= j <= n,
            n == line@.len(),
            space ==> next_space(line@, j as int) == next_space(line@, i as int),
            !space ==> next_solid(line@, j as int) == next_solid(line@, i as int),
        decreases n - j,
    {
        if char_is_space(line.get_char(j)) == space {
            return j;
        }
        j = j + 1;
    }
    j
}

/// Whether a string is five characters of one byte each.
fn is_five_plain(s: &str) -> (r: bool)
    ensures
        r == five_plain(s@),
{
    s.is_ascii() && s.unicode_len() == 5
}

/// Reads a line of the dialogue.
pub fn parse_command(line: &str) -> (r: Result<Command, CommandError>)
    ensures
        match r {
            Ok(c) => c@ == request_of(line@),
            Err(e) => request_of(line@) == Request::Bad(e),
        },
{
    let n = line.unicode_len();
    let s0 = scan(line, n, 0, false);
    if s0 >= n {
        return Err(CommandError::Format);
    }
    let e0 = scan(line, n, s0, true);
    let s1 = scan(line, n, e0, false);
    let first = line.substring_char(s0, e0);
    if s1 >= n {
        let word = ascii_lowercase(first);
        if place_of(word.as_str(), "quit") == Place::Same {
            return Ok(Command::Quit);
        }
        if place_of(word.as_str(), "win") == Place::Same {
            return Ok(Command::Win);
        }
        if place_of(word.as_str(), "rec") == Place::Same {
            return Ok(Command::Recommend);
        }
        if place_of(word.as_str(), "left") == Place::Same {
            return Ok(Command::Left);
        }
        return Err(CommandError::Format);
    }
    let e1 = scan(line, n, s1, true);
    let s2 = scan(line, n, e1, false);
    if s2 < n {
        return Err(CommandError::Format);
    }
    let second = line.substring_char(s1, e1);
    if !is_five_plain(first) || !is_five_plain(second) {
        return Err(CommandError::Length);
    }
    if !is_word_str(first) {
        return Err(CommandError::NotAWord);
    }
    let mut state: [char; 5] = ['R';5];
    let mut j: usize = 0;
    while j < 5
        invariant
            0 <= j <= 5,
            second@.len() == 5,
            forall|k: int| 0 <= k < j ==> (#[trigger] state@[k]) == raise(second@[k]),
        decreases 5 - j,
    {
        state[j] = raise_char(second.get_char(j));
        j = j + 1;
    }
    assert(state@ =~= raised(second@));
    Ok(Command::Turn { guess: ascii_lowercase(first), state })
}

/// The turns that a player has entered.
#[derive(Debug)]
pub struct Solver {
    /// The guesses, in lowercase.
    pub guess_history: Vec<String>,
    /// The marks of each guess.
    pub state_history: Vec<[char; 5]>,
}

/// What the solver answers to a line.
pub enum Reply {
    /// The player leaves.
    Bye,
    /// The player has won.
    Cheer,
    /// What to guess next: the survey of the turns entered so far.
    Advice(Survey),
    /// The words that are left.
    Listing(Vec<String>),
    /// The line was refused; nothing has changed.
    Refused(CommandError),
    /// A turn was recorded.
    Progress {
        /// Whether the guess is one of the acceptable words.
        known: bool,
        /// The survey of the turns entered so far.
        survey: Survey,
    },
}

impl Reply {
    /// The dialogue ends with this reply: the player leaves or has won, or
    /// the turns leave at most one word.
    pub open spec fn is_final(&self) -> bool {
        match *self {
            Reply::Bye => true,
            Reply::Cheer => true,
            Reply::Progress { known, survey } => survey is Settled,
            _ => false,
        }
    }

    /// Whether the dialogue ends with this reply.
    pub fn ends(&self) -> (r: bool)
        ensures
            r == self.is_final(),
    {
        match self {
            Reply::Bye => true,
            Reply::Cheer => true,
            Reply::Progress { known: _, survey } => match survey {
                Survey::Settled { remaining: _ } => true,
                Survey::Open { remaining: _, pool: _, classes: _ } => false,
            },
            _ => false,
        }
    }
}

impl Solver {
    /// Every guess is a word and has its marks.
    pub open spec fn wf(&self) -> bool {
        &&& self.guess_history@.len() == self.state_history@.len()
        &&& all_words(self.guess_history@)
    }

    /// A solver that has been told nothing yet.
    pub fn new() -> (s: Solver)
        ensures
            s.wf(),
            s.guess_history@.len() == 0,
    {
        Solver { guess_history: Vec::new(), state_history: Vec::new() }
    }

    /// Number of the turn that is entered next, counted from `1`.
    pub fn next_turn(&self) -> (n: usize)
        requires
            self.guess_history@.len() < usize::MAX,
        ensures
            n == self.guess_history@.len() + 1,
    {
        self.guess_history.len() + 1
    }

    /// Takes one line and answers it.
    ///
    /// A turn is recorded and answered with the survey of all turns so far.
    /// A request for advice or for the list of words is answered from the
    /// turns recorded before. Every other line leaves the solver as it was.
    pub fn step(&mut self, line: &str, acceptable_words: &[String]) -> (r: Reply)
        requires
            old(self).wf(),
            all_words(acceptable_words@),
        ensures
            final(self).wf(),
            match request_of(line@) {
                Request::Quit => r is Bye && *final(self) == *old(self),
                Request::Win => r is Cheer && *final(self) == *old(self),
                Request::Recommend => {
                    &&& *final(self) == *old(self)
                    &&& r matches Reply::Advice(s)
                    &&& is_survey(
                        s,
                        acceptable_words@,
                        old(self).guess_history@,
                        old(self).state_history@,
                    )
                },
                Request::Left => {
                    &&& *final(self) == *old(self)
                    &&& r matches Reply::Listing(words)
                    &&& is_remaining(
                        words@,
                        acceptable_words@,
                        old(self).guess_history@,
                        old(self).state_history@,
                    )
                },
                Request::Bad(e) => r == Reply::Refused(e) && *final(self) == *old(self),
                Request::Turn { guess, state } => {
                    &&& texts(final(self).guess_history@) == texts(old(self).guess_history@).push(
                        guess,
                    )
                    &&& final(self).state_history@.len() == old(self).state_history@.len() + 1
                    &&& forall|i: int|
                        0 <= i < old(self).state_history@.len() ==> final(self).state_history@[i]
                            == old(self).state_history@[i]
                    &&& final(self).state_history@.last()@ == state
                    &&& r matches Reply::Progress { known, survey }
                    &&& known == listed(acceptable_words@, guess)
                    &&& is_survey(
                        survey,
                        acceptable_words@,
                        final(self).guess_history@,
                        final(self).state_history@,
                    )
                },
            },
    {
        match parse_command(line) {
            Err(e) => Reply::Refused(e),
            Ok(Command::Quit) => Reply::Bye,
            Ok(Command::Win) => Reply::Cheer,
            Ok(Command::Recommend) => Reply::Advice(
                survey(
                    acceptable_words,
                    self.guess_history.as_slice(),
                    self.state_history.as_slice(),
                ),
            ),
            Ok(Command::Left) => Reply::Listing(
                find_remaining_words(
                    acceptable_words,
                    self.guess_history.as_slice(),
                    self.state_history.as_slice(),
                ),
            ),
            Ok(Command::Turn { guess, state }) => {
                proof {
                    lemma_case_keeps_word(guess@);
                    let s0 = next_solid(line@, 0);
                    let e0 = next_space(line@, s0);
                    lemma_case_keeps_word(line@.subrange(s0, e0));
                }
                let known = contains_word(acceptable_words, guess.as_str());
                let ghost word = guess@;
                self.guess_history.push(guess);
                self.state_history.push(state);
                assert(texts(self.guess_history@) =~= texts(old(self).guess_history@).push(word));
                let survey = survey(
                    acceptable_words,
                    self.guess_history.as_slice(),
                    self.state_history.as_slice(),
                );
                Reply::Progress { known, survey }
            },
        }
    }
}

/// The line holds the keyword somewhere, the case of letters set aside.
/// The keyword is given in capitals.
pub open spec fn mentions(line: Seq<char>, keyword: Seq<char>) -> bool {
    exists|i: int|
        0 <= i && i + keyword.len() <= line.len() && #[trigger] raised(line).subrange(
            i,
            i + keyword.len(),
        ) == keyword
}

/// Whether the characters of `line` from position `i` on begin with the
/// keyword, the case of letters set aside.
fn begins_at(line: &Vec<char>, i: usize, keyword: &Vec<char>) -> (r: bool)
    requires
        i + keyword@.len() <= line@.len(),
    ensures
        r == (raised(line@).subrange(i as int, i + keyword@.len()) == keyword@),
{
    let n = line.len();
    let ghost part = raised(line@).subrange(i as int, i + keyword@.len());
    let mut j: usize = 0;
    while j < keyword.len()
        invariant
            0 <= j <= keyword@.len(),
            n == line@.len(),
            i + keyword@.len() <= n,
            part == raised(line@).subrange(i as int, i + keyword@.len()),
            forall|k: int| 0 <= k < j ==> (#[trigger] part[k]) == keyword@[k],
        decreases keyword@.len() - j,
    {
        if raise_char(line[i + j]) != keyword[j] {
            assert(part[j as int] != keyword@[j as int]);
            return false;
        }
        j = j + 1;
    }
    assert(part =~= keyword@);
    true
}

/// Whether a line holds a keyword somewhere, the case of letters set
/// aside. The keyword is given in capitals.
pub fn asks_for(line: &str, keyword: &str) -> (r: bool)
    ensures
        r == mentions(line@, keyword@),
{
    let text = chars_of(line);
    let key = chars_of(keyword);
    if key.len() > text.len() {
        return false;
    }
    let last = text.len() - key.len();
    let mut i: usize = 0;
    loop
        invariant
            0 <= i <= last,
            last + key@.len() == text@.len(),
            text@ == line@,
            key@ == keyword@,
            forall|k: int|
                0 <= k < i ==> #[trigger] raised(line@).subrange(k, k + keyword@.len())
                    != keyword@,
        decreases last - i,
    {
        if begins_at(&text, i, &key) {
            return true;
        }
        if i == last {
            return false;
        }
        i = i + 1;
    }
}

} // verus!
