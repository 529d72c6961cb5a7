use wordle::error::Error;
use wordle::round::{guess_one_time, RoundState};
use wordle::session::{
    config_paths, contains_all, finish_round, get_word_by_start_day, info_analyze, list_paths,
    shuffled_indices, start_round, wants_another, Config, Game, Info, SecretSource, State,
};

fn list(words: &[&str]) -> Vec<String> {
    words.iter().map(|word| word.to_string()).collect()
}

fn words() -> Vec<String> {
    list(&["apple", "brave", "crane", "doubt", "eagle"])
}

fn session() -> Info {
    let mut acceptable = words();
    acceptable.push("slate".to_string());
    acceptable.push("cloud".to_string());
    Info::new(words(), acceptable)
}

fn no_config() -> Config {
    Config {
        random: None,
        difficult: None,
        stats: None,
        day: None,
        seed: None,
        final_set: None,
        acceptable_set: None,
        state: None,
        word: None,
    }
}

#[test]
fn a_new_session_has_every_setting_at_its_default() {
    let info = session();
    assert!(!info.is_difficult && !info.is_random && !info.is_word_specified);
    assert!(!info.is_stats && !info.is_recommend && !info.is_seeded);
    assert!(!info.is_special_day && !info.is_stated && !info.is_hint);
    assert_eq!((info.succeeded_game, info.failed_game), (0, 0));
    assert!(info.words_appeared.is_empty());
    assert_eq!((info.day, info.seed), (1, 0));
    assert_eq!(info.final_path, "");
    assert_eq!(info.acceptable_path, "");
    assert_eq!(info.state_path, "");
    assert_eq!(info.final_set, words());
    assert_eq!(info.acceptable_set.len(), 7);
    assert_eq!(info.state.total_rounds, 0);
    assert!(info.state.games.is_empty());
    assert_eq!(info.shuffled_seq, shuffled_indices(5, 0));
    assert_eq!(info.secret_source(), SecretSource::Interactive);
}

#[test]
fn a_seed_gives_one_order() {
    assert_eq!(shuffled_indices(5, 0), vec![1, 0, 3, 2, 4]);
    assert_eq!(shuffled_indices(10, 0), vec![5, 2, 9, 1, 6, 3, 4, 0, 7, 8]);
    assert_eq!(shuffled_indices(10, 7), vec![5, 7, 9, 6, 3, 8, 2, 1, 0, 4]);
    assert_eq!(shuffled_indices(0, 3), Vec::<usize>::new());
    assert_eq!(shuffled_indices(1, 3), vec![0]);
}

#[test]
fn an_order_names_every_word_once() {
    for (n, seed) in [(1usize, 0u64), (2, 1), (17, 2), (100, 3), (1000, 0)] {
        let mut order = shuffled_indices(n, seed);
        assert_eq!(order, shuffled_indices(n, seed));
        order.sort();
        assert_eq!(order, (0..n).collect::<Vec<usize>>());
    }
}

#[test]
fn words_are_drawn_by_day() {
    let info = session();
    let mut word = String::new();
    // The order under seed 0 is 1, 0, 3, 2, 4.
    assert_eq!(get_word_by_start_day(&mut word, &info, 0), Some(0));
    assert_eq!(word, "brave");
    assert_eq!(get_word_by_start_day(&mut word, &info, 3), Some(3));
    assert_eq!(word, "crane");
    assert_eq!(get_word_by_start_day(&mut word, &info, 4), Some(4));
    assert_eq!(word, "eagle");
}

#[test]
fn no_word_is_drawn_outside_the_days() {
    let info = session();
    let mut word = "kept".to_string();
    assert_eq!(get_word_by_start_day(&mut word, &info, 5), None);
    assert_eq!(get_word_by_start_day(&mut word, &info, -1), None);
    assert_eq!(get_word_by_start_day(&mut word, &info, i32::MAX), None);
    assert_eq!(get_word_by_start_day(&mut word, &info, i32::MIN), None);
    assert_eq!(word, "kept");
}

#[test]
fn words_that_have_appeared_are_passed_over() {
    let mut info = session();
    info.words_appeared = list(&["apple", "doubt"]);
    let mut word = String::new();
    assert_eq!(get_word_by_start_day(&mut word, &info, 1), Some(3));
    assert_eq!(word, "crane");
    info.words_appeared = list(&["crane", "eagle"]);
    let mut word = "kept".to_string();
    assert_eq!(get_word_by_start_day(&mut word, &info, 3), None);
    assert_eq!(word, "kept");
}

#[test]
fn a_configuration_replaces_what_it_names() {
    let mut info = session();
    let mut word = "kept".to_string();
    info.load_config(&mut word, &no_config());
    assert!(!info.is_random && !info.is_seeded && !info.is_special_day && !info.is_stated);
    assert!(!info.is_word_specified);
    assert_eq!(word, "kept");
    let config = Config {
        random: Some(true),
        difficult: Some(true),
        stats: Some(false),
        day: Some(3),
        seed: Some(99),
        final_set: Some("final.txt".to_string()),
        acceptable_set: Some("acceptable.txt".to_string()),
        state: Some("state.json".to_string()),
        word: Some("crane".to_string()),
    };
    info.is_stats = true;
    info.load_config(&mut word, &config);
    assert!(info.is_random && info.is_difficult && !info.is_stats);
    assert!(info.is_special_day && info.is_seeded && info.is_stated && info.is_word_specified);
    assert_eq!((info.day, info.seed), (3, 99));
    assert_eq!(info.final_path, "final.txt");
    assert_eq!(info.acceptable_path, "acceptable.txt");
    assert_eq!(info.state_path, "state.json");
    assert_eq!(word, "crane");
    // A later configuration that names nothing changes nothing.
    info.load_config(&mut word, &no_config());
    assert!(info.is_random && info.is_special_day && info.is_word_specified);
    assert_eq!((info.day, info.seed), (3, 99));
    assert_eq!(info.state_path, "state.json");
}

#[test]
fn a_day_outside_i32_is_cut() {
    let mut info = session();
    let mut word = String::new();
    let mut config = no_config();
    config.day = Some(4294967296 + 5);
    info.load_config(&mut word, &config);
    assert_eq!(info.day, 5);
    config.day = Some(-1);
    info.load_config(&mut word, &config);
    assert_eq!(info.day, -1);
}

#[test]
fn an_empty_record_is_a_fresh_session() {
    let mut info = session();
    info.state = State { total_rounds: 4, games: vec![] };
    assert_eq!(info.load_state(&"{}".to_string(), None), Ok(()));
    assert_eq!(info.state.total_rounds, 0);
    assert!(info.state.games.is_empty());
}

#[test]
fn a_record_that_cannot_be_read_is_an_error() {
    let mut info = session();
    info.state = State { total_rounds: 4, games: vec![] };
    assert_eq!(
        info.load_state(&"{ ".to_string(), None),
        Err(Error::InvalidArgs)
    );
    assert_eq!(info.load_state(&"".to_string(), None), Err(Error::InvalidArgs));
    assert_eq!(info.state.total_rounds, 4);
}

#[test]
fn a_record_that_was_read_is_taken() {
    let mut info = session();
    let record = State {
        total_rounds: 2,
        games: vec![Game { answer: "CRANE".to_string(), guesses: list(&["SLATE", "CRANE"]) }],
    };
    let payload = "{\"total_rounds\": 2, \"games\": []}".to_string();
    assert_eq!(info.load_state(&payload, Some(record)), Ok(()));
    assert_eq!(info.state.total_rounds, 2);
    assert_eq!(info.state.games.len(), 1);
    assert_eq!(info.state.games[0].answer, "CRANE");
    assert_eq!(info.state.games[0].guesses, list(&["SLATE", "CRANE"]));
}

#[test]
fn flags_switch_modes_on() {
    let mut info = session();
    let mut word = "kept".to_string();
    let args = list(&["wordle", "-r", "--difficult", "-t", "--hint", "-c"]);
    assert_eq!(info_analyze(&mut word, &mut info, &args), Ok(Vec::<String>::new()));
    assert!(info.is_random && info.is_difficult && info.is_stats && info.is_hint);
    assert!(info.is_recommend);
    assert!(!info.is_word_specified && !info.is_seeded && !info.is_special_day);
    assert!(!info.is_stated);
    assert_eq!(word, "kept");
    assert_eq!(info.secret_source(), SecretSource::Shuffled);
    let mut other = session();
    let args = list(&["wordle", "--random", "-D", "--stats", "-h", "--recommend"]);
    assert_eq!(info_analyze(&mut word, &mut other, &args), Ok(Vec::<String>::new()));
    assert!(other.is_random && other.is_difficult && other.is_stats && other.is_hint);
    assert!(other.is_recommend);
}

#[test]
fn no_arguments_change_nothing_but_the_order() {
    let mut info = session();
    let mut word = "kept".to_string();
    assert_eq!(info_analyze(&mut word, &mut info, &vec![]), Ok(Vec::<String>::new()));
    assert!(!info.is_random && !info.is_recommend);
    assert_eq!((info.day, info.seed), (1, 0));
    assert_eq!(info.shuffled_seq, shuffled_indices(5, 0));
}

#[test]
fn a_seed_and_a_day_are_taken() {
    let mut info = session();
    let mut word = String::new();
    let args = list(&["wordle", "-r", "-s", "7", "--day", "3", "--seed", "42", "-d", "+2"]);
    assert_eq!(info_analyze(&mut word, &mut info, &args), Ok(Vec::<String>::new()));
    assert!(info.is_seeded && info.is_special_day);
    assert_eq!((info.day, info.seed), (2, 42));
    assert_eq!(info.shuffled_seq, shuffled_indices(5, 42));
}

#[test]
fn a_given_word_becomes_the_secret() {
    let mut info = session();
    let mut word = String::new();
    let args = list(&["wordle", "-w", "apple", "--word", "crane", "-t"]);
    assert_eq!(info_analyze(&mut word, &mut info, &args), Ok(Vec::<String>::new()));
    assert!(info.is_word_specified);
    assert_eq!(word, "crane");
    assert_eq!(info.secret_source(), SecretSource::Specified);
}

#[test]
fn the_paths_of_records_come_back_in_order() {
    let mut info = session();
    let mut word = String::new();
    let args = list(&["wordle", "-S", "a.json", "-r", "--state", "b.json"]);
    assert_eq!(
        info_analyze(&mut word, &mut info, &args),
        Ok(list(&["a.json", "b.json"]))
    );
    assert!(info.is_stated);
    assert_eq!(info.state_path, "b.json");
}

fn refused(info: &mut Info, args: &[&str]) {
    let mut word = "kept".to_string();
    let before = (
        info.is_random,
        info.is_word_specified,
        info.is_seeded,
        info.is_special_day,
        info.is_stated,
        info.day,
        info.seed,
        info.shuffled_seq.clone(),
        info.state_path.clone(),
    );
    assert_eq!(
        info_analyze(&mut word, info, &list(args)),
        Err(Error::InvalidArgs)
    );
    let after = (
        info.is_random,
        info.is_word_specified,
        info.is_seeded,
        info.is_special_day,
        info.is_stated,
        info.day,
        info.seed,
        info.shuffled_seq.clone(),
        info.state_path.clone(),
    );
    assert_eq!(before, after);
    assert_eq!(word, "kept");
}

#[test]
fn a_word_with_random_mode_is_refused() {
    refused(&mut session(), &["wordle", "-w", "crane", "-r"]);
    let mut info = session();
    info.is_random = true;
    refused(&mut info, &["wordle", "--word", "crane"]);
}

#[test]
fn a_word_with_a_seed_or_a_day_is_refused() {
    refused(&mut session(), &["wordle", "-w", "crane", "-s", "1", "-d", "2"]);
    refused(&mut session(), &["wordle", "-w", "crane", "-d", "2"]);
    refused(&mut session(), &["wordle", "-w", "crane", "--seed", "7"]);
    let mut info = session();
    info.is_word_specified = true;
    refused(&mut info, &["-s", "7"]);
    let mut info = session();
    info.is_word_specified = true;
    refused(&mut info, &["wordle", "--day", "3"]);
    let mut info = session();
    info.is_seeded = true;
    refused(&mut info, &["wordle", "-w", "crane"]);
    let mut info = session();
    info.is_special_day = true;
    refused(&mut info, &["wordle", "-w", "crane"]);
}

#[test]
fn a_seed_and_a_day_go_together_without_a_word() {
    let mut info = session();
    let mut word = String::new();
    let args = list(&["wordle", "-s", "1", "-d", "2"]);
    assert_eq!(info_analyze(&mut word, &mut info, &args), Ok(Vec::<String>::new()));
    assert!(info.is_seeded && info.is_special_day && !info.is_word_specified);
}

#[test]
fn a_word_that_is_no_secret_word_is_refused() {
    refused(&mut session(), &["wordle", "-w", "slate"]);
    refused(&mut session(), &["wordle", "-w", "slate", "-w", "crane"]);
}

#[test]
fn a_flag_without_its_value_is_refused() {
    for flag in ["-w", "--word", "-d", "--day", "-s", "--seed", "-S", "--state"] {
        refused(&mut session(), &["wordle", "-t", flag]);
    }
}

#[test]
fn a_day_or_seed_that_is_no_number_is_refused() {
    refused(&mut session(), &["wordle", "-d", "two"]);
    refused(&mut session(), &["wordle", "-d", "2147483648"]);
    refused(&mut session(), &["wordle", "-s", "-1"]);
    refused(&mut session(), &["wordle", "-s", "1", "-s", ""]);
}

#[test]
fn secret_words_that_cannot_be_guessed_are_refused() {
    let mut info = Info::new(list(&["crane", "slate"]), list(&["crane"]));
    refused(&mut info, &["wordle"]);
    assert!(!contains_all(&info.acceptable_set, &info.final_set));
    assert!(contains_all(&info.final_set, &info.acceptable_set));
    assert!(contains_all(&vec![], &vec![]));
}

#[test]
fn paths_of_word_lists_and_configurations() {
    let mut info = session();
    let args = list(&[
        "wordle", "-f", "one.txt", "-c", "c.json", "--final-set", "two.txt", "--config", "d.json",
        "-a", "three.txt",
    ]);
    assert_eq!(list_paths(&mut info, &args), Ok(()));
    assert_eq!(info.final_path, "two.txt");
    assert_eq!(info.acceptable_path, "three.txt");
    assert_eq!(config_paths(&args), Ok(list(&["c.json", "d.json"])));
    assert_eq!(config_paths(&list(&["wordle", "-c"])), Err(Error::InvalidArgs));
    assert_eq!(
        list_paths(&mut info, &list(&["wordle", "--acceptable-set"])),
        Err(Error::InvalidArgs)
    );
    assert_eq!(info.acceptable_path, "three.txt");
    assert_eq!(list_paths(&mut info, &list(&["wordle"])), Ok(()));
    assert_eq!(info.final_path, "two.txt");
}

#[test]
fn a_round_in_random_mode_draws_the_word_of_the_day() {
    let mut info = session();
    info.is_random = true;
    let mut word = String::new();
    let round = start_round(&mut word, &mut info, None);
    assert!(round.is_ok());
    assert_eq!(word, "brave");
    assert_eq!(info.words_appeared, list(&["brave"]));
}

#[test]
fn a_round_with_a_given_word_takes_it_in_lower_case() {
    let mut info = session();
    info.is_word_specified = true;
    let mut word = "CRANE".to_string();
    assert!(start_round(&mut word, &mut info, None).is_ok());
    assert_eq!(word, "crane");
    assert!(info.words_appeared.is_empty());
}

#[test]
fn a_typed_secret_has_to_be_a_secret_word() {
    let mut info = session();
    let mut word = "kept".to_string();
    match start_round(&mut word, &mut info, Some("slate".to_string())) {
        Err(error) => assert_eq!(error, Error::InvalidWord),
        Ok(_) => panic!(),
    }
    match start_round(&mut word, &mut info, None) {
        Err(error) => assert_eq!(error, Error::InvalidWord),
        Ok(_) => panic!(),
    }
    assert_eq!(word, "kept");
    let round = start_round(&mut word, &mut info, Some("eagle".to_string()));
    assert!(round.is_ok());
    assert_eq!(word, "eagle");
}

#[test]
fn a_finished_round_goes_into_the_record() {
    let mut info = session();
    info.is_word_specified = true;
    let mut word = "crane".to_string();
    let mut round = match start_round(&mut word, &mut info, None) {
        Ok(round) => round,
        Err(_) => panic!(),
    };
    assert_eq!(
        guess_one_time(&word, &info, &mut round, "slate".to_string()),
        Ok(())
    );
    assert_eq!(
        guess_one_time(&word, &info, &mut round, "crane".to_string()),
        Err(Error::AlreadyCorrect)
    );
    finish_round(&word, &mut info, round);
    assert_eq!(info.state.total_rounds, 1);
    assert_eq!(info.state.games.len(), 1);
    assert_eq!(info.state.games[0].answer, "CRANE");
    assert_eq!(info.state.games[0].guesses, list(&["SLATE", "CRANE"]));
    assert_eq!((info.succeeded_game, info.failed_game), (1, 0));
}

#[test]
fn a_lost_round_counts_as_failed() {
    let mut info = session();
    info.is_word_specified = true;
    let mut word = "crane".to_string();
    let mut round = match start_round(&mut word, &mut info, None) {
        Ok(round) => round,
        Err(_) => panic!(),
    };
    for _ in 0..6 {
        assert_eq!(
            guess_one_time(&word, &info, &mut round, "slate".to_string()),
            Ok(())
        );
    }
    assert_eq!(round.round_state(), RoundState::Failed);
    finish_round(&word, &mut info, round);
    assert_eq!(info.state.total_rounds, 1);
    assert_eq!(info.state.games[0].guesses.len(), 6);
    assert_eq!((info.succeeded_game, info.failed_game), (0, 1));
}

fn secrets(seed: &str, day: &str) -> Vec<String> {
    let mut info = session();
    let mut word = String::new();
    let args = list(&["wordle", "-r", "-s", seed, "-d", day]);
    assert_eq!(info_analyze(&mut word, &mut info, &args), Ok(Vec::<String>::new()));
    let mut drawn = vec![];
    loop {
        let round = match start_round(&mut word, &mut info, None) {
            Ok(round) => round,
            Err(error) => {
                assert_eq!(error, Error::InvalidArgs);
                break;
            }
        };
        drawn.push(word.clone());
        finish_round(&word, &mut info, round);
    }
    drawn
}

#[test]
fn the_same_seed_and_day_give_the_same_secrets() {
    assert_eq!(secrets("0", "1"), list(&["brave", "apple", "doubt", "crane", "eagle"]));
    assert_eq!(secrets("0", "3"), list(&["doubt", "crane", "eagle"]));
    for (seed, day) in [("0", "1"), ("7", "1"), ("7", "2"), ("123456789", "4")] {
        assert_eq!(secrets(seed, day), secrets(seed, day));
    }
    assert_eq!(secrets("7", "1").len(), 5);
    assert_eq!(secrets("7", "6"), list(&[]));
}

#[test]
fn answers_to_the_question_whether_to_play_on() {
    assert_eq!(wants_another(&"Y".to_string()), Some(true));
    assert_eq!(wants_another(&"N".to_string()), Some(false));
    assert_eq!(wants_another(&"".to_string()), Some(false));
    assert_eq!(wants_another(&"y".to_string()), None);
    assert_eq!(wants_another(&"YES".to_string()), None);
    assert_eq!(wants_another(&" ".to_string()), None);
}

#[test]
fn a_given_word_is_played_once() {
    let mut info = session();
    assert!(!info.ends_after_round());
    info.is_word_specified = true;
    assert!(info.ends_after_round());
}

#[test]
fn the_record_is_saved_for_drawn_secrets_only() {
    let mut info = session();
    assert!(!info.saves_record());
    info.is_stated = true;
    assert!(!info.saves_record());
    info.is_random = true;
    assert!(info.saves_record());
    info.is_stated = false;
    assert!(!info.saves_record());
}
