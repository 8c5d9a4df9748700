//! Settings of a session: what the command line and the configuration file
//! ask for, and where the answers of the rounds come from.

use vstd::prelude::*;

verus! {

/// Settings as they are read from one place. A field is `None` where that
/// place says nothing.
#[derive(Debug)]
pub struct Config {
    /// Draw the answers at random.
    pub random: Option<bool>,
    /// Play in hard mode.
    pub difficult: Option<bool>,
    /// Show the statistics after each round.
    pub stats: Option<bool>,
    /// Day of the first round, counted from `1`.
    pub day: Option<u32>,
    /// Seed of the order in which the days run through the answers.
    pub seed: Option<u64>,
    /// Path of the list of answers.
    pub final_set: Option<String>,
    /// Path of the list of acceptable words.
    pub acceptable_set: Option<String>,
    /// Path of the file that keeps the games played.
    pub state: Option<String>,
    /// The answer itself.
    pub word: Option<String>,
}

impl Default for Config {
    /// Settings that say nothing.
    fn default() -> (c: Config)
        ensures
            c.random is None,
            c.difficult is None,
            c.stats is None,
            c.day is None,
            c.seed is None,
            c.final_set is None,
            c.acceptable_set is None,
            c.state is None,
            c.word is None,
    {
        Config {
            random: None,
            difficult: None,
            stats: None,
            day: None,
            seed: None,
            final_set: None,
            acceptable_set: None,
            state: None,
            word: None,
        }
    }
}

/// Day of the first round where none is given.
pub const DEFAULT_DAY: u32 = 1;

/// Seed where none is given.
pub const DEFAULT_SEED: u64 = 1;

/// Where the answer of a round comes from.
#[derive(Debug)]
pub enum AnswerSource {
    /// The answer is given with the settings.
    Given(String),
    /// The answer is that of a day, in the order that a seed fixes.
    Scheduled {
        /// Day of the first round.
        day: u32,
        /// Seed of the order.
        seed: u64,
    },
    /// The answer is drawn at random among the answers not yet played.
    Random,
    /// The answer is asked for before each round.
    Typed,
}

/// Why settings are refused.
#[derive(Clone, Copy, PartialEq, Eq, Structural, Debug)]
pub enum SettingsError {
    /// An answer is given together with a day, a seed or the random mode.
    WordWithSchedule,
    /// The day lies beyond the last answer.
    DayOutOfRange,
    /// A list of answers is named without a list of acceptable words.
    MissingAcceptableSet,
}

/// A switch is on where it is set to `true`.
pub open spec fn is_on(flag: Option<bool>) -> bool {
    flag == Some(true)
}

/// One setting from two places: the first place wins where it speaks.
pub open spec fn first_of<T>(first: Option<T>, second: Option<T>) -> Option<T> {
    if first is Some {
        first
    } else {
        second
    }
}

/// The settings ask for an answer and, beside it, for a day, a seed or the
/// random mode.
pub open spec fn conflicting(c: Config) -> bool {
    c.word is Some && (c.day is Some || c.seed is Some || is_on(c.random))
}

/// The source of the answers that settings ask for: a given word before a
/// day or a seed, those before the random mode, and the keyboard last.
pub open spec fn source_of(c: Config) -> AnswerSource {
    if c.word is Some {
        AnswerSource::Given(c.word->0)
    } else if c.day is Some || c.seed is Some {
        AnswerSource::Scheduled {
            day: if c.day is Some {
                c.day->0
            } else {
                DEFAULT_DAY
            },
            seed: if c.seed is Some {
                c.seed->0
            } else {
                DEFAULT_SEED
            },
        }
    } else if is_on(c.random) {
        AnswerSource::Random
    } else {
        AnswerSource::Typed
    }
}

/// Day of the first round that settings ask for.
pub open spec fn first_day(c: Config) -> u32 {
    if c.day is Some {
        c.day->0
    } else {
        DEFAULT_DAY
    }
}

/// The first fault of settings put together, for a session with `answers`
/// answers to schedule, if there is one.
pub open spec fn settings_fault(c: Config, answers: int) -> Option<SettingsError> {
    if first_day(c) > answers {
        Some(SettingsError::DayOutOfRange)
    } else if c.final_set is Some && c.acceptable_set is None {
        Some(SettingsError::MissingAcceptableSet)
    } else {
        None
    }
}

/// A switch from two places: on if either place turns it on.
fn first_flag(first: Option<bool>, second: Option<bool>) -> (r: Option<bool>)
    ensures
        r == Some(is_on(first) || is_on(second)),
{
    let a = match first {
        Some(b) => b,
        None => false,
    };
    let b = match second {
        Some(b) => b,
        None => false,
    };
    Some(a || b)
}

/// A text from two places: the first place wins where it speaks.
fn first_text(first: Option<String>, second: Option<String>) -> (r: Option<String>)
    ensures
        r == first_of(first, second),
{
    match first {
        Some(s) => Some(s),
        None => second,
    }
}

impl Config {
    /// Puts the settings of the command line and those of the configuration
    /// file together. The command line wins wherever it speaks; a switch is
    /// on if either place turns it on.
    pub fn merge(cli: Config, file: Config) -> (c: Config)
        ensures
            c.random == Some(is_on(cli.random) || is_on(file.random)),
            c.difficult == Some(is_on(cli.difficult) || is_on(file.difficult)),
            c.stats == Some(is_on(cli.stats) || is_on(file.stats)),
            c.day == first_of(cli.day, file.day),
            c.seed == first_of(cli.seed, file.seed),
            c.final_set == first_of(cli.final_set, file.final_set),
            c.acceptable_set == first_of(cli.acceptable_set, file.acceptable_set),
            c.state == first_of(cli.state, file.state),
            c.word == first_of(cli.word, file.word),
    {
        Config {
            random: first_flag(cli.random, file.random),
            difficult: first_flag(cli.difficult, file.difficult),
            stats: first_flag(cli.stats, file.stats),
            day: match cli.day {
                Some(d) => Some(d),
                None => file.day,
            },
            seed: match cli.seed {
                Some(s) => Some(s),
                None => file.seed,
            },
            final_set: first_text(cli.final_set, file.final_set),
            acceptable_set: first_text(cli.acceptable_set, file.acceptable_set),
            state: first_text(cli.state, file.state),
            word: first_text(cli.word, file.word),
        }
    }

    /// Checks the settings of the command line by themselves: an answer
    /// excludes a day, a seed and the random mode.
    pub fn check_command_line(&self) -> (r: Result<(), SettingsError>)
        ensures
            r is Err <==> conflicting(*self),
            r is Err ==> r == Err::<(), SettingsError>(SettingsError::WordWithSchedule),
    {
        let random = match self.random {
            Some(b) => b,
            None => false,
        };
        if self.word.is_some() && (self.day.is_some() || self.seed.is_some() || random) {
            Err(SettingsError::WordWithSchedule)
        } else {
            Ok(())
        }
    }

    /// Checks settings put together, for a session with `answers` answers
    /// to schedule: the first day must be one of them, and a list of answers
    /// needs a list of acceptable words beside it.
    pub fn check(&self, answers: usize) -> (r: Result<(), SettingsError>)
        ensures
            match r {
                Ok(_) => settings_fault(*self, answers as int) is None,
                Err(e) => settings_fault(*self, answers as int) == Some(e),
            },
    {
        let day = match self.day {
            Some(d) => d,
            None => DEFAULT_DAY,
        };
        if day as usize > answers {
            return Err(SettingsError::DayOutOfRange);
        }
        if self.final_set.is_some() && self.acceptable_set.is_none() {
            return Err(SettingsError::MissingAcceptableSet);
        }
        Ok(())
    }

    /// Whether hard mode is on.
    pub fn hard_mode(&self) -> (r: bool)
        ensures
            r == is_on(self.difficult),
    {
        match self.difficult {
            Some(b) => b,
            None => false,
        }
    }

    /// Whether the statistics are to be shown.
    pub fn show_stats(&self) -> (r: bool)
        ensures
            r == is_on(self.stats),
    {
        match self.stats {
            Some(b) => b,
            None => false,
        }
    }

    /// Where the answers come from.
    pub fn answer_source(self) -> (r: AnswerSource)
        ensures
            r == source_of(self),
    {
        let random = match self.random {
            Some(b) => b,
            None => false,
        };
        let scheduled = self.day.is_some() || self.seed.is_some();
        match self.word {
            Some(w) => AnswerSource::Given(w),
            None => {
                if scheduled {
                    let day = match self.day {
                        Some(d) => d,
                        None => DEFAULT_DAY,
                    };
                    let seed = match self.seed {
                        Some(s) => s,
                        None => DEFAULT_SEED,
                    };
                    AnswerSource::Scheduled { day, seed }
                } else if random {
                    AnswerSource::Random
                } else {
                    AnswerSource::Typed
                }
            },
        }
    }
}

} // verus!
