use wordle::text::{
    comes_before, has_char, has_word, push_digits, push_numeral, push_text, to_ascii_upper,
    to_lower, to_upper,
};

#[test]
fn capitals_of_characters() {
    assert_eq!(to_ascii_upper('a'), 'A');
    assert_eq!(to_ascii_upper('z'), 'Z');
    assert_eq!(to_ascii_upper('Q'), 'Q');
    assert_eq!(to_ascii_upper('`'), '`');
    assert_eq!(to_ascii_upper('{'), '{');
    assert_eq!(to_ascii_upper('é'), 'é');
}

#[test]
fn capitals_of_texts() {
    assert_eq!(to_upper(&"crane".to_string()), "CRANE");
    assert_eq!(to_upper(&"Hello, World 42".to_string()), "HELLO, WORLD 42");
    assert_eq!(to_upper(&"".to_string()), "");
    assert_eq!(to_upper(&"straße".to_string()), "STRAßE");
}

#[test]
fn lower_case_of_texts() {
    assert_eq!(to_lower(&"CRANE".to_string()), "crane");
    assert_eq!(to_lower(&"Hello, World 42".to_string()), "hello, world 42");
    assert_eq!(to_lower(&"ÉCOLE".to_string()), "\u{c9}cole");
    assert_eq!(to_lower(&"".to_string()), "");
}

#[test]
fn texts_in_dictionary_order() {
    let before = |a: &str, b: &str| comes_before(&a.to_string(), &b.to_string());
    assert!(before("apple", "apply"));
    assert!(!before("apply", "apple"));
    assert!(before("app", "apple"));
    assert!(!before("apple", "app"));
    assert!(!before("apple", "apple"));
    assert!(before("", "a"));
    assert!(!before("", ""));
    assert!(before("Zebra", "apple"));
    assert!(before("a", "é"));
    for (a, b) in [("crane", "crate"), ("b", "abc"), ("É", "z"), ("ab", "ab")] {
        assert_eq!(before(a, b), a < b);
        assert_eq!(before(b, a), b < a);
    }
}

#[test]
fn characters_and_words_are_found() {
    let word = "crane".to_string();
    assert!(has_char(&word, 'c'));
    assert!(has_char(&word, 'e'));
    assert!(!has_char(&word, 'z'));
    assert!(!has_char(&"".to_string(), 'a'));
    let words = vec!["crane".to_string(), "slate".to_string()];
    assert!(has_word(&words, &"slate".to_string()));
    assert!(!has_word(&words, &"SLATE".to_string()));
    assert!(!has_word(&vec![], &"slate".to_string()));
}

#[test]
fn numbers_are_written_in_decimal() {
    let mut text = "n=".to_string();
    push_digits(&mut text, 0);
    assert_eq!(text, "n=0");
    push_digits(&mut text, 340282366920938463463374607431768211455);
    assert_eq!(text, "n=0340282366920938463463374607431768211455");
    let mut text = String::new();
    push_numeral(&mut text, -42);
    push_text(&mut text, &" ".to_string());
    push_numeral(&mut text, 1007);
    push_text(&mut text, &" ".to_string());
    push_numeral(&mut text, 0);
    assert_eq!(text, "-42 1007 0");
    for n in [7i128, -7, 10, 99, 100, -2147483648, 2147483647] {
        let mut text = String::new();
        push_numeral(&mut text, n);
        assert_eq!(text, format!("{}", n));
    }
}

#[test]
fn case_is_changed_as_the_standard_library_changes_it() {
    for text in ["", "crane", "CRANE", "CrAnE 123 !?", "[\\]^_`{|}~@", "ÀÉÎõü ß", "日本語 Abc"] {
        assert_eq!(to_upper(&text.to_string()), text.to_ascii_uppercase());
        assert_eq!(to_lower(&text.to_string()), text.to_ascii_lowercase());
    }
}
