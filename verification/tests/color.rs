use wordle::color::{color_vec_to_string, same_colors, Color, GREEN, GREY, RED, YELLOW};
use wordle::error::Error;

#[test]
fn colours_as_text() {
    assert_eq!(Color::R.to_string(), "R");
    assert_eq!(Color::Y.to_string(), "Y");
    assert_eq!(Color::G.to_string(), "G");
    assert_eq!(Color::X.to_string(), "X");
    assert_eq!(Color::G.to_char(), 'G');
}

#[test]
fn colours_as_hex() {
    assert_eq!(Color::R.to_hex(), 0x787c7f);
    assert_eq!(Color::Y.to_hex(), 0xc8b653);
    assert_eq!(Color::G.to_hex(), 0x6ca965);
    assert_eq!(Color::X.to_hex(), 0xd1d1d1);
    assert_eq!((RED, YELLOW, GREEN, GREY), (0x787c7f, 0xc8b653, 0x6ca965, 0xd1d1d1));
}

#[test]
fn colours_clone_to_themselves() {
    for color in [Color::R, Color::Y, Color::G, Color::X] {
        assert_eq!(color.clone(), color);
    }
}

#[test]
fn green_ranks_above_yellow_above_red_above_unknown() {
    assert_eq!(Color::G.grade(), 4);
    assert_eq!(Color::Y.grade(), 3);
    assert_eq!(Color::R.grade(), 2);
    assert_eq!(Color::X.grade(), 1);
}

#[test]
fn a_row_of_colours_as_text() {
    let row = vec![Color::G, Color::Y, Color::R, Color::R, Color::X];
    assert_eq!(color_vec_to_string(&row), "GYRRX");
    assert_eq!(color_vec_to_string(&vec![]), "");
}

#[test]
fn rows_of_colours_compare_place_by_place() {
    let row = vec![Color::G, Color::Y];
    assert!(same_colors(&row, &vec![Color::G, Color::Y]));
    assert!(!same_colors(&row, &vec![Color::G, Color::R]));
    assert!(!same_colors(&row, &vec![Color::G]));
    assert!(same_colors(&vec![], &vec![]));
}

#[test]
fn errors_as_text() {
    assert_eq!(Error::InvalidWord.to_string(), "INVALID");
    assert_eq!(Error::AlreadyCorrect.to_string(), "CORRECT");
    assert_eq!(Error::InvalidArgs.to_string(), "InvalidArgs");
}
