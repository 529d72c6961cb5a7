use wordle::color::Color;
use wordle::hint::{get_grade_one_depth, get_new_hint_list, recommend_from_hint_list};
use wordle::score::calculate_color;

fn list(words: &[&str]) -> Vec<String> {
    words.iter().map(|word| word.to_string()).collect()
}

#[test]
fn the_hint_list_keeps_what_agrees_with_the_colours() {
    let hints = list(&["crane", "crate", "slate", "brake", "trace"]);
    let guess = "crate".to_string();
    let result = calculate_color(&"crane".to_string(), &guess);
    assert_eq!(
        result,
        vec![Color::G, Color::G, Color::G, Color::R, Color::G]
    );
    assert_eq!(get_new_hint_list(&hints, &guess, &result), list(&["crane"]));
}

#[test]
fn the_hint_list_keeps_its_order_and_its_repeats() {
    let hints = list(&["brake", "slate", "brake", "crane", "flake"]);
    let guess = "zzzze".to_string();
    let result = vec![Color::R, Color::R, Color::R, Color::R, Color::G];
    assert_eq!(get_new_hint_list(&hints, &guess, &result), hints);
    let none = vec![Color::G; 5];
    assert_eq!(get_new_hint_list(&hints, &guess, &none), list(&[]));
}

#[test]
fn narrowing_twice_is_narrowing_once() {
    let hints = list(&["crane", "crate", "slate", "brake", "trace", "grace", "erase"]);
    for secret in ["crane", "slate", "erase"] {
        for guess in ["crate", "trace", "speed"] {
            let guess = guess.to_string();
            let result = calculate_color(&secret.to_string(), &guess);
            let once = get_new_hint_list(&hints, &guess, &result);
            let twice = get_new_hint_list(&once, &guess, &result);
            assert_eq!(once, twice);
            assert!(once.contains(&secret.to_string()));
        }
    }
}

#[test]
fn a_result_of_another_length_agrees_with_nothing() {
    let hints = list(&["crane", "crate"]);
    let guess = "crane".to_string();
    assert_eq!(get_new_hint_list(&hints, &guess, &vec![Color::G; 4]), list(&[]));
    assert_eq!(get_new_hint_list(&hints, &guess, &vec![]), list(&[]));
}

#[test]
fn the_grade_sums_what_would_remain() {
    let hints = list(&["aaaaa", "bbbbb"]);
    assert_eq!(get_grade_one_depth(&hints, &"aaaaa".to_string()), 2);
    assert_eq!(get_grade_one_depth(&hints, &"ccccc".to_string()), 4);
    let three = list(&["zzzzz", "abcde", "abcdf"]);
    assert_eq!(get_grade_one_depth(&three, &"zzzzz".to_string()), 5);
    assert_eq!(get_grade_one_depth(&three, &"abcde".to_string()), 3);
    assert_eq!(get_grade_one_depth(&three, &"abcdf".to_string()), 3);
    assert_eq!(get_grade_one_depth(&list(&[]), &"abcde".to_string()), 0);
}

#[test]
fn the_lowest_grades_are_recommended() {
    let hints = list(&["zzzzz", "abcde", "abcdf"]);
    assert_eq!(recommend_from_hint_list(&hints), list(&["abcde", "abcdf"]));
}

#[test]
fn equal_grades_keep_the_order_of_the_list() {
    assert_eq!(
        recommend_from_hint_list(&list(&["abcdf", "zzzzz", "abcde"])),
        list(&["abcdf", "abcde"])
    );
    assert_eq!(
        recommend_from_hint_list(&list(&["aaaaa", "bbbbb", "ccccc"])),
        list(&["aaaaa", "bbbbb"])
    );
}

#[test]
fn short_lists_are_recommended_whole() {
    assert_eq!(recommend_from_hint_list(&list(&[])), list(&[]));
    assert_eq!(recommend_from_hint_list(&list(&["crane"])), list(&["crane"]));
    assert_eq!(
        recommend_from_hint_list(&list(&["crane", "slate"])),
        list(&["crane", "slate"])
    );
}

#[test]
fn the_recommended_are_the_first_in_order_of_grade() {
    let hints = list(&[
        "crane", "crate", "slate", "brake", "trace", "grace", "erase", "eerie", "cloud", "clown",
        "could", "would", "mould", "moult",
    ]);
    let mut sorted = hints.clone();
    sorted.sort_by_key(|word| get_grade_one_depth(&hints, word));
    sorted.truncate(2);
    assert_eq!(recommend_from_hint_list(&hints), sorted);
}
