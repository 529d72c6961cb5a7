use wordle::words::{lower_lines, set_from_text};

fn list(words: &[&str]) -> Vec<String> {
    words.iter().map(|word| word.to_string()).collect()
}

#[test]
fn a_text_is_read_line_by_line() {
    assert_eq!(lower_lines(&"crane\nslate\n".to_string()), list(&["crane", "slate"]));
    assert_eq!(lower_lines(&"crane\nslate".to_string()), list(&["crane", "slate"]));
    assert_eq!(lower_lines(&"".to_string()), list(&[]));
    assert_eq!(lower_lines(&"\n".to_string()), list(&[""]));
    assert_eq!(lower_lines(&"a\n\nb".to_string()), list(&["a", "", "b"]));
    assert_eq!(lower_lines(&"a\n\n".to_string()), list(&["a", ""]));
    assert_eq!(lower_lines(&"\na".to_string()), list(&["", "a"]));
}

#[test]
fn lines_are_read_as_the_standard_library_splits_them() {
    for text in ["", "\n", "a", "a\n", "a\nb", "a\nb\n", "\n\n", "a\n\n\nb\n", "Ab\r\nCd\n"] {
        let expected: Vec<String> = text
            .split_terminator("\n")
            .map(|line| line.to_ascii_lowercase())
            .collect();
        assert_eq!(lower_lines(&text.to_string()), expected);
    }
}

#[test]
fn words_are_kept_in_lower_case() {
    assert_eq!(lower_lines(&"CRANE\nSlate\n".to_string()), list(&["crane", "slate"]));
}

#[test]
fn a_word_list_is_kept_in_order() {
    let mut set = list(&["old"]);
    set_from_text(&"slate\nCrane\napple\ncrane\n".to_string(), &mut set);
    assert_eq!(set, list(&["apple", "crane", "crane", "slate"]));
    set_from_text(&"b\nab\na\nabc\n".to_string(), &mut set);
    assert_eq!(set, list(&["a", "ab", "abc", "b"]));
    set_from_text(&"".to_string(), &mut set);
    assert_eq!(set, list(&[]));
}
