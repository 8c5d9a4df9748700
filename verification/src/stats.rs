//! The games of a session and what is counted over them: games won and
//! lost, the guesses that winning took, and how often each word was guessed.

use vstd::prelude::*;
use crate::feedback::{color_state, score};
use crate::letters::{ascii_lowercase, ascii_uppercase, folded, is_word, is_word_str, raised};
use crate::ranking::{is_top, top_k};
use crate::round::{all_correct, is_all_correct, Round};

verus! {

/// One game that was played: the answer and the guesses, in uppercase.
#[derive(Debug, Clone)]
pub struct GameRecord {
    /// The answer of the game.
    pub answer: String,
    /// The guesses, in the order in which they were made.
    pub guesses: Vec<String>,
}

/// The games of a session as they are kept between runs.
#[derive(Debug)]
pub struct GameState {
    /// Number of games.
    pub total_rounds: u32,
    /// The games, in the order in which they were played.
    pub games: Vec<GameRecord>,
}

/// The counts of a session.
#[derive(Debug)]
pub struct Stats {
    /// Number of games won.
    pub successful_games: u32,
    /// Number of games lost.
    pub failed_games: u32,
    /// Number of guesses made in the games won.
    pub total_successful_attempts: u32,
    /// Number of guesses counted.
    pub counted_guesses: u64,
    /// How often each word was guessed: the word in lowercase with its
    /// count, each word once.
    pub guess_frequency: Vec<(String, u64)>,
}

/// A game was won if its last guess is its answer, both of them words.
pub open spec fn won(answer: Seq<char>, guesses: Seq<String>) -> bool {
    &&& guesses.len() > 0
    &&& is_word(answer)
    &&& is_word(guesses.last()@)
    &&& all_correct(score(guesses.last()@, answer))
}

/// How often the word `w` was counted among the first `n` entries.
pub open spec fn frequency(entries: Seq<(String, u64)>, w: Seq<char>, n: int) -> nat
    decreases n,
{
    if n <= 0 {
        0
    } else {
        frequency(entries, w, n - 1) + if entries[n - 1].0@ == w {
            entries[n - 1].1 as nat
        } else {
            0nat
        }
    }
}

/// How often the word `w` stands among the first `n` guesses, the case of
/// letters set aside.
pub open spec fn mentions(guesses: Seq<String>, w: Seq<char>, n: int) -> nat
    decreases n,
{
    if n <= 0 {
        0
    } else {
        mentions(guesses, w, n - 1) + if folded(guesses[n - 1]@) == w {
            1nat
        } else {
            0nat
        }
    }
}

/// Number of games won among the first `n`.
pub open spec fn wins(games: Seq<GameRecord>, n: int) -> nat
    decreases n,
{
    if n <= 0 {
        0
    } else {
        wins(games, n - 1) + if won(games[n - 1].answer@, games[n - 1].guesses@) {
            1nat
        } else {
            0nat
        }
    }
}

/// Number of games lost among the first `n`.
pub open spec fn losses(games: Seq<GameRecord>, n: int) -> nat
    decreases n,
{
    if n <= 0 {
        0
    } else {
        losses(games, n - 1) + if won(games[n - 1].answer@, games[n - 1].guesses@) {
            0nat
        } else {
            1nat
        }
    }
}

/// Number of guesses made in the games won among the first `n`.
pub open spec fn winning_guesses(games: Seq<GameRecord>, n: int) -> nat
    decreases n,
{
    if n <= 0 {
        0
    } else {
        winning_guesses(games, n - 1) + if won(games[n - 1].answer@, games[n - 1].guesses@) {
            games[n - 1].guesses@.len()
        } else {
            0nat
        }
    }
}

/// Number of guesses made in the first `n` games.
pub open spec fn all_guesses(games: Seq<GameRecord>, n: int) -> nat
    decreases n,
{
    if n <= 0 {
        0
    } else {
        all_guesses(games, n - 1) + games[n - 1].guesses@.len()
    }
}

/// How often the word `w` was guessed in the first `n` games.
pub open spec fn guessed_in(games: Seq<GameRecord>, w: Seq<char>, n: int) -> nat
    decreases n,
{
    if n <= 0 {
        0
    } else {
        guessed_in(games, w, n - 1) + mentions(
            games[n - 1].guesses@,
            w,
            games[n - 1].guesses@.len() as int,
        )
    }
}

/// The first `n` games can be counted one after the other without a count
/// leaving its range.
pub open spec fn countable(games: Seq<GameRecord>, n: int) -> bool
    decreases n,
{
    n <= 0 || {
        &&& countable(games, n - 1)
        &&& wins(games, n - 1) < u32::MAX
        &&& losses(games, n - 1) < u32::MAX
        &&& winning_guesses(games, n - 1) + games[n - 1].guesses@.len() <= u32::MAX
        &&& all_guesses(games, n - 1) + games[n - 1].guesses@.len() <= u64::MAX
    }
}

/// No word has two entries.
pub open spec fn distinct(entries: Seq<(String, u64)>) -> bool {
    forall|i: int, j: int|
        0 <= i < j < entries.len() ==> (#[trigger] entries[i]).0@ != (#[trigger] entries[j]).0@
}

/// Entries that agree below `n` give the same frequencies below `n`.
proof fn lemma_frequency_same(a: Seq<(String, u64)>, b: Seq<(String, u64)>, w: Seq<char>, n: int)
    requires
        n <= a.len(),
        n <= b.len(),
        forall|i: int| 0 <= i < n ==> (#[trigger] a[i]) == b[i],
    ensures
        frequency(a, w, n) == frequency(b, w, n),
    decreases n,
{
    if n > 0 {
        lemma_frequency_same(a, b, w, n - 1);
    }
}

/// Raising the count of the entry at `i` by one raises the frequency of its
/// word by one and leaves every other frequency as it was.
proof fn lemma_frequency_raised(
    a: Seq<(String, u64)>,
    b: Seq<(String, u64)>,
    i: int,
    w: Seq<char>,
    n: int,
)
    requires
        0 <= i < a.len(),
        a.len() == b.len(),
        0 <= n <= a.len(),
        b[i].0@ == a[i].0@,
        b[i].1 == a[i].1 + 1,
        forall|k: int| 0 <= k < a.len() && k != i ==> (#[trigger] a[k]) == b[k],
    ensures
        frequency(b, w, n) == frequency(a, w, n) + if i < n && a[i].0@ == w {
            1int
        } else {
            0int
        },
    decreases n,
{
    if n > 0 {
        lemma_frequency_raised(a, b, i, w, n - 1);
    }
}

/// Position of the entry of a word, or the number of entries if the word
/// has none.
fn entry_of(entries: &Vec<(String, u64)>, word: &String) -> (i: usize)
    ensures
        i <= entries@.len(),
        forall|k: int| 0 <= k < i ==> (#[trigger] entries@[k]).0@ != word@,
        i < entries@.len() ==> entries@[i as int].0@ == word@,
{
    let mut i: usize = 0;
    while i < entries.len()
        invariant
            0 <= i <= entries@.len(),
            forall|k: int| 0 <= k < i ==> (#[trigger] entries@[k]).0@ != word@,
        decreases entries@.len() - i,
    {
        if entries[i].0 == *word {
            return i;
        }
        i = i + 1;
    }
    i
}

/// Games that can be counted can be counted up to any point before their
/// end.
proof fn lemma_countable_prefix(games: Seq<GameRecord>, m: int, n: int)
    requires
        m <= n,
        countable(games, n),
    ensures
        countable(games, m),
    decreases n - m,
{
    if m < n {
        lemma_countable_prefix(games, m, n - 1);
    }
}

impl GameRecord {
    /// The record of a round: its answer and its guesses in uppercase.
    pub fn of_round(round: &Round) -> (r: GameRecord)
        ensures
            r.answer@ == raised(round.answer@),
            r.guesses@.len() == round.guess_history@.len(),
            forall|i: int|
                0 <= i < r.guesses@.len() ==> (#[trigger] r.guesses@[i])@ == raised(
                    round.guess_history@[i]@,
                ),
    {
        let mut guesses: Vec<String> = Vec::new();
        let mut i: usize = 0;
        while i < round.guess_history.len()
            invariant
                0 <= i <= round.guess_history@.len(),
                guesses@.len() == i,
                forall|k: int|
                    0 <= k < i ==> (#[trigger] guesses@[k])@ == raised(round.guess_history@[k]@),
            decreases round.guess_history@.len() - i,
        {
            guesses.push(ascii_uppercase(round.guess_history[i].as_str()));
            i = i + 1;
        }
        GameRecord { answer: ascii_uppercase(round.answer.as_str()), guesses }
    }

    /// Whether the game was won.
    pub fn is_won(&self) -> (r: bool)
        ensures
            r == won(self.answer@, self.guesses@),
    {
        let n = self.guesses.len();
        if n == 0 {
            return false;
        }
        let last = self.guesses[n - 1].as_str();
        if !is_word_str(self.answer.as_str()) || !is_word_str(last) {
            return false;
        }
        let state = color_state(last, self.answer.as_str());
        is_all_correct(&state)
    }
}

impl GameState {
    /// The state that keeps the given games. The number of games is kept to
    /// 32 bits.
    pub fn of_games(games: Vec<GameRecord>) -> (s: GameState)
        ensures
            s.games == games,
            s.total_rounds == games@.len() % 0x1_0000_0000,
    {
        let n: u64 = games.len() as u64;
        GameState { total_rounds: (n % 0x1_0000_0000) as u32, games }
    }
}

impl Stats {
    /// The counts are well formed if no word has two entries and no entry
    /// counts more guesses than were counted in all.
    pub open spec fn wf(&self) -> bool {
        &&& distinct(self.guess_frequency@)
        &&& forall|i: int|
            0 <= i < self.guess_frequency@.len() ==> (#[trigger] self.guess_frequency@[i]).1
                <= self.counted_guesses
    }

    /// How often the word `w` was guessed.
    pub open spec fn guessed(&self, w: Seq<char>) -> nat {
        frequency(self.guess_frequency@, w, self.guess_frequency@.len() as int)
    }

    /// There is room to count a game of `guesses` guesses.
    pub open spec fn room_for(&self, guesses: int) -> bool {
        &&& self.successful_games < u32::MAX
        &&& self.failed_games < u32::MAX
        &&& self.total_successful_attempts + guesses <= u32::MAX
        &&& self.counted_guesses + guesses <= u64::MAX
    }

    /// Counts of a session in which nothing was played.
    pub fn new() -> (s: Stats)
        ensures
            s.wf(),
            s.successful_games == 0,
            s.failed_games == 0,
            s.total_successful_attempts == 0,
            s.counted_guesses == 0,
            s.guess_frequency@.len() == 0,
    {
        Stats {
            successful_games: 0,
            failed_games: 0,
            total_successful_attempts: 0,
            counted_guesses: 0,
            guess_frequency: Vec::new(),
        }
    }

    /// Whether there is room to count a game of `guesses` guesses.
    pub fn has_room(&self, guesses: usize) -> (r: bool)
        ensures
            r == self.room_for(guesses as int),
    {
        self.successful_games < u32::MAX && self.failed_games < u32::MAX && guesses as u64 <= (
        u32::MAX - self.total_successful_attempts) as u64 && guesses as u64 <= u64::MAX
            - self.counted_guesses
    }

    /// Counts one guess: the frequency of its lowercase form grows by one.
    pub fn count_guess(&mut self, guess: &str)
        requires
            old(self).wf(),
            old(self).counted_guesses < u64::MAX,
        ensures
            final(self).wf(),
            final(self).successful_games == old(self).successful_games,
            final(self).failed_games == old(self).failed_games,
            final(self).total_successful_attempts == old(self).total_successful_attempts,
            final(self).counted_guesses == old(self).counted_guesses + 1,
            forall|w: Seq<char>| #[trigger]
                final(self).guessed(w) == old(self).guessed(w) + if w == folded(guess@) {
                    1int
                } else {
                    0int
                },
    {
        let word = ascii_lowercase(guess);
        let ghost before = self.guess_frequency@;
        let n = self.guess_frequency.len();
        let i = entry_of(&self.guess_frequency, &word);
        self.counted_guesses = self.counted_guesses + 1;
        if i < n {
            let (kept, count) = self.guess_frequency.remove(i);
            self.guess_frequency.insert(i, (kept, count + 1));
            proof {
                let after = self.guess_frequency@;
                assert(after.len() == before.len());
                assert(after[i as int].0@ == before[i as int].0@);
                assert forall|k: int| 0 <= k < before.len() && k != i implies (#[trigger] before[k])
                    == after[k] by {}
                assert forall|w: Seq<char>| #[trigger]
                    frequency(after, w, n as int) == frequency(before, w, n as int) + if w
                        == word@ {
                        1int
                    } else {
                        0int
                    } by {
                    lemma_frequency_raised(before, after, i as int, w, n as int);
                }
            }
        } else {
            self.guess_frequency.push((word, 1));
            proof {
                let after = self.guess_frequency@;
                assert forall|w: Seq<char>| #[trigger]
                    frequency(after, w, n + 1) == frequency(before, w, n as int) + if w == word@ {
                        1int
                    } else {
                        0int
                    } by {
                    lemma_frequency_same(before, after, w, n as int);
                }
            }
        }
    }

    /// Counts a game that was played: a win with the number of its guesses,
    /// or a loss, and each of its guesses.
    pub fn count_game(&mut self, record: &GameRecord)
        requires
            old(self).wf(),
            old(self).room_for(record.guesses@.len() as int),
        ensures
            final(self).wf(),
            final(self).successful_games == old(self).successful_games + if won(
                record.answer@,
                record.guesses@,
            ) {
                1int
            } else {
                0int
            },
            final(self).failed_games == old(self).failed_games + if won(
                record.answer@,
                record.guesses@,
            ) {
                0int
            } else {
                1int
            },
            final(self).total_successful_attempts == old(self).total_successful_attempts + if won(
                record.answer@,
                record.guesses@,
            ) {
                record.guesses@.len() as int
            } else {
                0int
            },
            final(self).counted_guesses == old(self).counted_guesses + record.guesses@.len(),
            forall|w: Seq<char>| #[trigger]
                final(self).guessed(w) == old(self).guessed(w) + mentions(
                    record.guesses@,
                    w,
                    record.guesses@.len() as int,
                ),
    {
        let n = record.guesses.len();
        if record.is_won() {
            self.count_win(n as u32);
        } else {
            self.count_loss();
        }
        let ghost start = self.guess_frequency@;
        let mut i: usize = 0;
        while i < n
            invariant
                0 <= i <= n,
                n == record.guesses@.len(),
                self.wf(),
                self.successful_games == old(self).successful_games + if won(
                    record.answer@,
                    record.guesses@,
                ) {
                    1int
                } else {
                    0int
                },
                self.failed_games == old(self).failed_games + if won(
                    record.answer@,
                    record.guesses@,
                ) {
                    0int
                } else {
                    1int
                },
                self.total_successful_attempts == old(self).total_successful_attempts + if won(
                    record.answer@,
                    record.guesses@,
                ) {
                    n as int
                } else {
                    0int
                },
                self.counted_guesses == old(self).counted_guesses + i,
                old(self).counted_guesses + n <= u64::MAX,
                forall|w: Seq<char>| #[trigger]
                    self.guessed(w) == old(self).guessed(w) + mentions(
                        record.guesses@,
                        w,
                        i as int,
                    ),
            decreases n - i,
        {
            self.count_guess(record.guesses[i].as_str());
            i = i + 1;
        }
    }

    /// Counts the games of a list one after the other, starting from
    /// nothing. The answer is `None` if a count would leave its range.
    pub fn tally(games: &[GameRecord]) -> (r: Option<Stats>)
        ensures
            r is Some <==> countable(games@, games@.len() as int),
            r matches Some(s) ==> {
                let n = games@.len() as int;
                &&& s.wf()
                &&& s.successful_games == wins(games@, n)
                &&& s.failed_games == losses(games@, n)
                &&& s.total_successful_attempts == winning_guesses(games@, n)
                &&& s.counted_guesses == all_guesses(games@, n)
                &&& forall|w: Seq<char>| #[trigger] s.guessed(w) == guessed_in(games@, w, n)
            },
    {
        let mut stats = Stats::new();
        let mut i: usize = 0;
        while i < games.len()
            invariant
                0 <= i <= games@.len(),
                countable(games@, i as int),
                stats.wf(),
                stats.successful_games == wins(games@, i as int),
                stats.failed_games == losses(games@, i as int),
                stats.total_successful_attempts == winning_guesses(games@, i as int),
                stats.counted_guesses == all_guesses(games@, i as int),
                forall|w: Seq<char>| #[trigger] stats.guessed(w) == guessed_in(games@, w, i as int),
            decreases games@.len() - i,
        {
            if !stats.has_room(games[i].guesses.len()) {
                proof {
                    if countable(games@, games@.len() as int) {
                        lemma_countable_prefix(games@, i + 1, games@.len() as int);
                    }
                }
                return None;
            }
            stats.count_game(&games[i]);
            i = i + 1;
        }
        Some(stats)
    }

    /// Counts a game that was won with `attempts` guesses.
    pub fn count_win(&mut self, attempts: u32)
        requires
            old(self).successful_games < u32::MAX,
            old(self).total_successful_attempts + attempts <= u32::MAX,
        ensures
            final(self).successful_games == old(self).successful_games + 1,
            final(self).total_successful_attempts == old(self).total_successful_attempts
                + attempts,
            final(self).failed_games == old(self).failed_games,
            final(self).counted_guesses == old(self).counted_guesses,
            final(self).guess_frequency == old(self).guess_frequency,
    {
        self.successful_games = self.successful_games + 1;
        self.total_successful_attempts = self.total_successful_attempts + attempts;
    }

    /// Counts a game that was lost.
    pub fn count_loss(&mut self)
        requires
            old(self).failed_games < u32::MAX,
        ensures
            final(self).failed_games == old(self).failed_games + 1,
            final(self).successful_games == old(self).successful_games,
            final(self).total_successful_attempts == old(self).total_successful_attempts,
            final(self).counted_guesses == old(self).counted_guesses,
            final(self).guess_frequency == old(self).guess_frequency,
    {
        self.failed_games = self.failed_games + 1;
    }

    /// The `k` words that were guessed most often, each with its count: the
    /// greater count first and, among equal counts, the earlier word.
    pub fn top_guesses(&self, k: usize) -> (best: Vec<(String, u64)>)
        ensures
            is_top(best@, self.guess_frequency@, k as int),
            best@.len() <= k,
    {
        top_k(self.guess_frequency.as_slice(), k)
    }
}

} // verus!
