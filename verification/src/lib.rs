//! A word-guessing puzzle engine: scoring of guesses, legality of guesses
//! (with the optional hard mode), reduction of the candidate words and the
//! ranking of further guesses, together with the bookkeeping of a session.

pub mod answers;
pub mod candidates;
pub mod dictionary;
pub mod display;
pub mod feedback;
pub mod keyboard;
pub mod legality;
pub mod letters;
pub mod order;
pub mod partition;
pub mod ranking;
pub mod round;
pub mod settings;
pub mod solver;
pub mod stats;
pub mod text;

pub use answers::get_answer_for_day;
pub use candidates::find_remaining_words;
pub use dictionary::validate_word_sets;
pub use feedback::color_state;
pub use keyboard::keyboard_state_update;
pub use legality::is_valid;
pub use settings::Config;
pub use stats::{GameRecord, GameState};
