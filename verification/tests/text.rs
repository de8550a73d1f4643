use ferrumview::text::{
    chars_of, has_control, in_decimal, in_lower_case, pieces, string_of, text_lines, trimmed,
    white, without_leading, without_trailing,
};

fn all_chars() -> Vec<char> {
    (0..=0x10ffffu32).filter_map(char::from_u32).collect()
}

#[test]
fn white_space_is_that_of_unicode() {
    for c in all_chars() {
        assert_eq!(white(c), c.is_whitespace());
    }
}

#[test]
fn control_characters_are_those_of_unicode() {
    for c in all_chars() {
        assert_eq!(has_control(&[c]), c.is_control());
    }
    assert!(has_control(&['a', '\n']));
    assert!(!has_control(&[]));
}

#[test]
fn texts_are_trimmed_as_by_the_standard_library() {
    for s in ["", " ", "a", " a", "a\u{3000}", "\u{85}\ta b\r\n ", "\u{feff} a"] {
        let text = chars_of(s);
        assert_eq!(string_of(trimmed(&text)), s.trim());
        assert_eq!(string_of(without_leading(&text, 'a')), s.trim_start_matches('a'));
        assert_eq!(string_of(without_trailing(&text, ' ')), s.trim_end_matches(' '));
    }
}

#[test]
fn lines_and_pieces_are_those_of_the_standard_library() {
    for s in [
        "", "\n", "a", "a\n", "a\r\n", "a\r", "\r\n\r\n", "a\n\nb\r\r\nc", "/a/b//", "/",
    ] {
        let text = chars_of(s);
        let list: Vec<String> = text_lines(&text).iter().map(|l| string_of(l)).collect();
        assert_eq!(list, s.lines().collect::<Vec<_>>());
        let list: Vec<String> = pieces(&text, '/').iter().map(|l| string_of(l)).collect();
        assert_eq!(list, s.split('/').collect::<Vec<_>>());
    }
}

#[test]
fn letters_and_numbers_are_written_as_by_the_standard_library() {
    for n in [0, 9, 10, 99, 100, 1234567890, u128::MAX] {
        assert_eq!(in_decimal(n), n.to_string());
    }
    let text = "AZaz[@Ж0";
    assert_eq!(
        string_of(&in_lower_case(&chars_of(text))),
        text.to_ascii_lowercase()
    );
}
