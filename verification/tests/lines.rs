use wordle::error::Error;
use wordle::feed::take_lines;
use wordle::round::{RoundInfo, RoundState};
use wordle::session::{guess_round, Info};

fn list(words: &[&str]) -> Vec<String> {
    words.iter().map(|word| word.to_string()).collect()
}

fn session() -> Info {
    let acceptable = [
        "apple", "brave", "crane", "doubt", "eagle", "crate", "brake", "slate", "plank", "cloud",
        "dress", "every", "fancy", "react", "trace",
    ];
    Info::new(list(&["apple", "brave", "crane", "doubt", "eagle"]), list(&acceptable))
}

fn with_word() -> Info {
    let mut info = session();
    info.is_word_specified = true;
    info
}

#[test]
fn the_guess_that_is_the_secret_ends_the_reading() {
    let mut info = with_word();
    let mut word = "crane".to_string();
    let lines = list(&["slate", "plank", "crane", "cloud", "dress"]);
    assert_eq!(
        guess_round(&mut word, &mut info, None, &lines),
        Ok((3, RoundState::Success))
    );
    assert_eq!(info.state.games.len(), 1);
    assert_eq!(info.state.games[0].answer, "CRANE");
    assert_eq!(info.state.games[0].guesses, list(&["SLATE", "PLANK", "CRANE"]));
    assert_eq!(info.state.total_rounds, 1);
    assert_eq!((info.succeeded_game, info.failed_game), (1, 0));
}

#[test]
fn the_first_guess_can_be_the_secret() {
    let mut info = with_word();
    let mut word = "CRANE".to_string();
    let lines = list(&["crane", "slate"]);
    assert_eq!(
        guess_round(&mut word, &mut info, None, &lines),
        Ok((1, RoundState::Success))
    );
    assert_eq!(word, "crane");
    assert_eq!(info.state.games[0].guesses, list(&["CRANE"]));
}

#[test]
fn the_sixth_guess_can_be_the_secret() {
    let mut info = with_word();
    let mut word = "crane".to_string();
    let lines = list(&["slate", "plank", "cloud", "dress", "every", "crane", "fancy"]);
    assert_eq!(
        guess_round(&mut word, &mut info, None, &lines),
        Ok((6, RoundState::Success))
    );
    assert_eq!(info.state.games[0].guesses.len(), 6);
    assert_eq!(info.state.games[0].guesses[5], "CRANE");
    assert_eq!((info.succeeded_game, info.failed_game), (1, 0));
}

#[test]
fn six_guesses_without_the_secret_end_the_reading() {
    let mut info = with_word();
    let mut word = "crane".to_string();
    let lines = list(&["slate", "plank", "cloud", "dress", "every", "fancy", "crane"]);
    assert_eq!(
        guess_round(&mut word, &mut info, None, &lines),
        Ok((6, RoundState::Failed))
    );
    assert_eq!(
        info.state.games[0].guesses,
        list(&["SLATE", "PLANK", "CLOUD", "DRESS", "EVERY", "FANCY"])
    );
    assert!(!info.state.games[0].guesses.contains(&info.state.games[0].answer));
    assert_eq!((info.succeeded_game, info.failed_game), (0, 1));
}

#[test]
fn lines_that_are_not_taken_leave_nothing() {
    let mut info = with_word();
    let mut word = "crane".to_string();
    let lines = list(&[
        "zzzzz", "slate", "", "SLATE", "plank", "cranes", "cloud", "qqqqq", "dress", "every",
        "wwwww", "fancy", "crane",
    ]);
    assert_eq!(
        guess_round(&mut word, &mut info, None, &lines),
        Ok((12, RoundState::Failed))
    );
    assert_eq!(
        info.state.games[0].guesses,
        list(&["SLATE", "PLANK", "CLOUD", "DRESS", "EVERY", "FANCY"])
    );
}

#[test]
fn a_round_that_runs_out_of_lines_is_not_recorded() {
    let mut info = with_word();
    let mut word = "crane".to_string();
    let lines = list(&["slate", "zzzzz", "plank"]);
    assert_eq!(
        guess_round(&mut word, &mut info, None, &lines),
        Ok((3, RoundState::AwaitingGuess))
    );
    assert!(info.state.games.is_empty());
    assert_eq!(info.state.total_rounds, 0);
    assert_eq!((info.succeeded_game, info.failed_game), (0, 0));
    assert_eq!(
        guess_round(&mut word, &mut info, None, &vec![]),
        Ok((0, RoundState::AwaitingGuess))
    );
}

#[test]
fn a_locked_letter_makes_a_line_invalid_in_difficult_mode() {
    let mut info = with_word();
    info.is_difficult = true;
    let mut word = "crane".to_string();
    // `brake` has another letter where `crate` was green, `react` keeps
    // none of the green places.
    let lines = list(&["crate", "brake", "react", "crane"]);
    assert_eq!(
        guess_round(&mut word, &mut info, None, &lines),
        Ok((4, RoundState::Success))
    );
    assert_eq!(info.state.games[0].guesses, list(&["CRATE", "CRANE"]));
}

#[test]
fn rounds_in_random_mode_take_the_words_of_the_days() {
    let mut info = session();
    info.is_random = true;
    info.day = 2;
    let mut word = String::new();
    // The order under seed 0 is 1, 0, 3, 2, 4.
    let expected = ["apple", "doubt", "crane", "eagle"];
    for (played, secret) in expected.iter().enumerate() {
        let lines = list(&["slate", secret]);
        assert_eq!(
            guess_round(&mut word, &mut info, None, &lines),
            Ok((2, RoundState::Success))
        );
        assert_eq!(word, *secret);
        assert_eq!(
            info.final_set[info.shuffled_seq[played + info.day as usize - 1]],
            *secret
        );
        assert_eq!(info.state.games[played].answer, secret.to_ascii_uppercase());
    }
    assert_eq!(
        guess_round(&mut word, &mut info, None, &vec![]),
        Err(Error::InvalidArgs)
    );
    assert_eq!(info.state.games.len(), 4);
}

#[test]
fn a_typed_secret_that_is_no_secret_word_starts_no_round() {
    let mut info = session();
    let mut word = "kept".to_string();
    let lines = list(&["slate"]);
    assert_eq!(
        guess_round(&mut word, &mut info, Some("slate".to_string()), &lines),
        Err(Error::InvalidWord)
    );
    assert_eq!(guess_round(&mut word, &mut info, None, &lines), Err(Error::InvalidWord));
    assert_eq!(word, "kept");
    assert!(info.state.games.is_empty());
    assert_eq!(
        guess_round(&mut word, &mut info, Some("eagle".to_string()), &list(&["eagle"])),
        Ok((1, RoundState::Success))
    );
    assert_eq!(info.state.games[0].answer, "EAGLE");
}

#[test]
fn lines_are_offered_until_the_round_has_ended() {
    let info = with_word();
    let secret = "crane".to_string();
    let mut round = RoundInfo::new(&info);
    assert_eq!(take_lines(&secret, &info, &mut round, &list(&["slate", "nope"])), 2);
    assert_eq!(round.round_state(), RoundState::AwaitingGuess);
    assert_eq!(take_lines(&secret, &info, &mut round, &list(&["crane", "cloud"])), 1);
    assert_eq!(round.round_state(), RoundState::Success);
    assert_eq!(take_lines(&secret, &info, &mut round, &list(&["cloud"])), 0);
    assert_eq!(round.word_guessed_this_round, list(&["SLATE", "CRANE"]));
}
