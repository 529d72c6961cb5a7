use wordle::session::{Game, Info, State};
use wordle::stats::{
    add_word_to_freq_list, stats_to_string, success_counts, tally_guesses, top_words,
};

fn list(words: &[&str]) -> Vec<String> {
    words.iter().map(|word| word.to_string()).collect()
}

fn game(answer: &str, guesses: &[&str]) -> Game {
    Game { answer: answer.to_string(), guesses: list(guesses) }
}

fn average(games: &Vec<Game>) -> String {
    let (rounds, guesses) = success_counts(games);
    if rounds == 0 {
        format!("{:.2}", 0.0)
    } else {
        format!("{:.2}", guesses as f64 / rounds as f64)
    }
}

fn session(total_rounds: i32, games: Vec<Game>) -> Info {
    let mut info = Info::new(vec![], vec![]);
    info.state = State { total_rounds, games };
    info
}

fn two_games() -> Vec<Game> {
    vec![
        game("CRANE", &["SLATE", "CRANE"]),
        game("BRISK", &["SLATE", "PLANK", "CLOUD", "DRESS", "EVERY", "FANCY"]),
    ]
}

#[test]
fn statistics_of_two_games() {
    let info = session(2, two_games());
    assert_eq!(success_counts(&info.state.games), (1, 2));
    assert_eq!(average(&info.state.games), "2.00");
    assert_eq!(
        stats_to_string(&info, &average(&info.state.games)),
        "1 1 2.00\nSLATE 2 CLOUD 1 CRANE 1 DRESS 1 EVERY 1"
    );
}

#[test]
fn the_most_guessed_word_comes_first() {
    let freq_list = tally_guesses(&two_games());
    let top = top_words(&freq_list);
    assert_eq!(top[0], ("SLATE".to_string(), 2));
    assert_eq!(top.len(), 5);
}

#[test]
fn statistics_of_nothing() {
    let info = session(0, vec![]);
    assert_eq!(success_counts(&info.state.games), (0, 0));
    assert_eq!(stats_to_string(&info, &"0.00".to_string()), "0 0 0.00\n");
}

#[test]
fn failures_are_the_rounds_less_the_games_won() {
    let games = vec![
        game("CRANE", &["CRANE"]),
        game("SLATE", &["CRANE", "SLATE"]),
        game("CLOUD", &["CRANE"]),
    ];
    let info = session(7, games);
    assert_eq!(success_counts(&info.state.games), (2, 3));
    assert_eq!(average(&info.state.games), "1.50");
    assert_eq!(
        stats_to_string(&info, &"1.50".to_string()),
        "2 5 1.50\nCRANE 3 SLATE 1"
    );
    let fewer = session(1, vec![game("CRANE", &["CRANE"]), game("SLATE", &["SLATE"])]);
    assert_eq!(
        stats_to_string(&fewer, &"1.00".to_string()),
        "2 -1 1.00\nCRANE 1 SLATE 1"
    );
}

#[test]
fn guesses_are_shown_in_capitals() {
    let info = session(1, vec![game("crane", &["slate", "crane", "slate"])]);
    assert_eq!(
        stats_to_string(&info, &"3.00".to_string()),
        "1 0 3.00\nSLATE 2 CRANE 1"
    );
}

#[test]
fn a_game_is_won_if_the_answer_is_among_its_guesses() {
    // The answer is matched letter for letter.
    let games = vec![game("CRANE", &["crane"]), game("crane", &["slate", "crane", "cloud"])];
    assert_eq!(success_counts(&games), (1, 3));
}

#[test]
fn a_frequency_list_counts_each_word() {
    let mut freq_list: Vec<(String, i32)> = vec![];
    for word in ["slate", "crane", "slate", "cloud", "slate", "crane"] {
        add_word_to_freq_list(&mut freq_list, &word.to_string());
    }
    assert_eq!(
        freq_list,
        vec![
            ("slate".to_string(), 3),
            ("crane".to_string(), 2),
            ("cloud".to_string(), 1)
        ]
    );
}

#[test]
fn a_word_listed_twice_is_counted_at_both_places() {
    let mut freq_list = vec![
        ("slate".to_string(), 3),
        ("crane".to_string(), 1),
        ("slate".to_string(), 7),
    ];
    add_word_to_freq_list(&mut freq_list, &"slate".to_string());
    assert_eq!(
        freq_list,
        vec![
            ("slate".to_string(), 4),
            ("crane".to_string(), 1),
            ("slate".to_string(), 8)
        ]
    );
}

#[test]
fn the_tally_keeps_the_order_of_first_guesses() {
    assert_eq!(
        tally_guesses(&two_games()),
        vec![
            ("SLATE".to_string(), 2),
            ("CRANE".to_string(), 1),
            ("PLANK".to_string(), 1),
            ("CLOUD".to_string(), 1),
            ("DRESS".to_string(), 1),
            ("EVERY".to_string(), 1),
            ("FANCY".to_string(), 1)
        ]
    );
    assert_eq!(tally_guesses(&vec![]), Vec::<(String, i32)>::new());
}

#[test]
fn ties_are_broken_by_the_alphabet() {
    let freq_list = vec![
        ("pear".to_string(), 2),
        ("fig".to_string(), 5),
        ("apple".to_string(), 2),
        ("plum".to_string(), 1),
        ("app".to_string(), 2),
        ("kiwi".to_string(), 9),
        ("lime".to_string(), 1),
    ];
    assert_eq!(
        top_words(&freq_list),
        vec![
            ("kiwi".to_string(), 9),
            ("fig".to_string(), 5),
            ("app".to_string(), 2),
            ("apple".to_string(), 2),
            ("pear".to_string(), 2)
        ]
    );
}

#[test]
fn fewer_than_five_words_are_all_shown() {
    let freq_list = vec![("b".to_string(), 1), ("a".to_string(), 1), ("c".to_string(), 4)];
    assert_eq!(
        top_words(&freq_list),
        vec![("c".to_string(), 4), ("a".to_string(), 1), ("b".to_string(), 1)]
    );
    assert_eq!(top_words(&vec![]), Vec::<(String, i32)>::new());
}

#[test]
fn capitals_come_before_small_letters() {
    let freq_list = vec![("apple".to_string(), 1), ("Zebra".to_string(), 1)];
    assert_eq!(
        top_words(&freq_list),
        vec![("Zebra".to_string(), 1), ("apple".to_string(), 1)]
    );
}

#[test]
fn the_top_words_are_the_first_of_the_sorted_list() {
    let guesses = [
        "slate", "crane", "slate", "cloud", "apple", "angle", "angle", "crane", "zebra", "apple",
        "slate", "Angle", "bbbbb", "aaaaa", "ab", "a", "abc", "crane", "zebra", "zebra",
    ];
    for upto in 0..=guesses.len() {
        let games = vec![game("NONE", &guesses[..upto])];
        let freq_list = tally_guesses(&games);
        let mut sorted = freq_list.clone();
        sorted.sort_by(|a, b| b.1.cmp(&a.1).then(a.0.cmp(&b.0)));
        sorted.truncate(5);
        assert_eq!(top_words(&freq_list), sorted);
    }
}
