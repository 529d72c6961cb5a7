//! Core rules of a five-letter word guessing game: colouring a guess
//! against a secret word, tracking what is known about each letter,
//! enforcing hard-mode constraints, narrowing hint lists, and keeping
//! statistics over the rounds of a session.

pub mod args;
pub mod color;
pub mod config;
pub mod count;
pub mod error;
pub mod feed;
pub mod hint;
pub mod round;
pub mod score;
pub mod session;
pub mod stats;
pub mod text;
pub mod words;

pub use color::{color_vec_to_string, Color, GREEN, GREY, RED, YELLOW};
pub use error::Error;
pub use hint::{get_grade_one_depth, get_new_hint_list, recommend_from_hint_list};
pub use round::{get_checked_guess, guess_one_time, update_round_alphabet_color, RoundInfo};
pub use score::{calculate_color, WORDLE_LENS};
pub use session::{get_word_by_start_day, guess_round, info_analyze, Game, Info, State};
pub use stats::{add_word_to_freq_list, stats_to_string};
