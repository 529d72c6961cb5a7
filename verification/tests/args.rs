use wordle::args::{arg_is_flag, flag_given, flag_values, parse_i32, parse_u64, text_is};
use wordle::error::Error;

fn list(words: &[&str]) -> Vec<String> {
    words.iter().map(|word| word.to_string()).collect()
}

#[test]
fn numbers_of_i32() {
    let parse = |text: &str| parse_i32(&text.to_string());
    assert_eq!(parse("0"), Some(0));
    assert_eq!(parse("12"), Some(12));
    assert_eq!(parse("-5"), Some(-5));
    assert_eq!(parse("+7"), Some(7));
    assert_eq!(parse("007"), Some(7));
    assert_eq!(parse("-0"), Some(0));
    assert_eq!(parse("2147483647"), Some(i32::MAX));
    assert_eq!(parse("-2147483648"), Some(i32::MIN));
    assert_eq!(parse("+2147483647"), Some(i32::MAX));
    assert_eq!(parse("000000000000000000000000000000000000012"), Some(12));
}

#[test]
fn texts_that_are_no_i32() {
    let parse = |text: &str| parse_i32(&text.to_string());
    for text in [
        "", "-", "+", "1a", "a1", " 1", "1 ", "--1", "+-1", "1.0", "2147483648", "-2147483649",
        "+2147483648", "99999999999999999999999999", "1_000", "٣",
    ] {
        assert_eq!(parse(text), None);
    }
}

#[test]
fn numbers_of_u64() {
    let parse = |text: &str| parse_u64(&text.to_string());
    assert_eq!(parse("0"), Some(0));
    assert_eq!(parse("+3"), Some(3));
    assert_eq!(parse("18446744073709551615"), Some(u64::MAX));
    assert_eq!(parse("018446744073709551615"), Some(u64::MAX));
    for text in ["", "+", "-0", "-1", "18446744073709551616", "1e3", "0x10", "12 "] {
        assert_eq!(parse(text), None);
    }
}

#[test]
fn numbers_are_read_as_the_standard_library_reads_them() {
    for text in [
        "0", "5", "-5", "+5", "", "-", "+", "00", "-00", "+-5", "2147483647", "2147483648",
        "-2147483648", "-2147483649", "12x", "x12", "1 2", "４",
    ] {
        assert_eq!(parse_i32(&text.to_string()), text.parse::<i32>().ok());
        assert_eq!(parse_u64(&text.to_string()), text.parse::<u64>().ok());
    }
}

#[test]
fn texts_are_compared_whole() {
    assert!(text_is("-w", "-w"));
    assert!(!text_is("-w", "-W"));
    assert!(!text_is("-w", "-wx"));
    assert!(!text_is("-wx", "-w"));
    assert!(text_is("", ""));
    assert!(arg_is_flag(&"-w".to_string(), "-w", "--word"));
    assert!(arg_is_flag(&"--word".to_string(), "-w", "--word"));
    assert!(!arg_is_flag(&"--w".to_string(), "-w", "--word"));
}

#[test]
fn flags_are_found_anywhere() {
    let args = list(&["wordle", "-w", "crane", "--random"]);
    assert!(flag_given(&args, "-r", "--random"));
    assert!(flag_given(&args, "-w", "--word"));
    assert!(!flag_given(&args, "-t", "--stats"));
    assert!(!flag_given(&vec![], "-t", "--stats"));
}

#[test]
fn values_follow_their_flags() {
    let args = list(&["wordle", "-w", "crane", "-r", "--word", "slate", "-w", "-w", "x"]);
    assert_eq!(
        flag_values(&args, "-w", "--word"),
        Ok(list(&["crane", "slate", "-w", "x"]))
    );
    assert_eq!(flag_values(&args, "-d", "--day"), Ok(Vec::<String>::new()));
    assert_eq!(flag_values(&vec![], "-d", "--day"), Ok(Vec::<String>::new()));
}

#[test]
fn a_flag_at_the_end_has_no_value() {
    let args = list(&["wordle", "-w", "crane", "--word"]);
    assert_eq!(flag_values(&args, "-w", "--word"), Err(Error::InvalidArgs));
    assert_eq!(flag_values(&list(&["-w"]), "-w", "--word"), Err(Error::InvalidArgs));
}
