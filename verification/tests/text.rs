use style::text::{
    chars_of, contains, ends_with, eq_ignore_ascii_case, has_token, is_whitespace,
    split_whitespace, starts_with, str_eq, to_ascii_lower, to_ascii_lower_char,
};

#[test]
fn chars_of_keeps_every_character() {
    assert_eq!(chars_of("a\u{e9}z"), vec!['a', '\u{e9}', 'z']);
    assert_eq!(chars_of(""), Vec::<char>::new());
}

#[test]
fn whitespace_is_the_five_characters() {
    for c in [' ', '\t', '\n', '\r', '\x0C'] {
        assert!(is_whitespace(c));
    }
    assert!(!is_whitespace('a'));
    assert!(!is_whitespace('\x0B'));
    assert!(!is_whitespace('\u{a0}'));
}

#[test]
fn lower_case_changes_ascii_letters_only() {
    assert_eq!(to_ascii_lower_char('A'), 'a');
    assert_eq!(to_ascii_lower_char('Z'), 'z');
    assert_eq!(to_ascii_lower_char('a'), 'a');
    assert_eq!(to_ascii_lower_char('@'), '@');
    assert_eq!(to_ascii_lower_char('['), '[');
    assert_eq!(to_ascii_lower_char('\u{c9}'), '\u{c9}');
    assert_eq!(to_ascii_lower("ImG"), "img");
    assert_eq!(to_ascii_lower("IMG"), "img");
    assert_eq!(to_ascii_lower("\u{c9}T\u{c9}"), "\u{c9}t\u{c9}");
    assert_eq!(to_ascii_lower(""), "");
}

#[test]
fn lower_case_agrees_with_std() {
    for text in ["Hello World", "ABCXYZ", "already", "MiXeD-123_\u{df}"] {
        assert_eq!(to_ascii_lower(text), text.to_ascii_lowercase());
    }
}

#[test]
fn equality_compares_all_characters() {
    assert!(str_eq("top", "top"));
    assert!(str_eq("", ""));
    assert!(!str_eq("top", "Top"));
    assert!(!str_eq("top", "to"));
    assert!(!str_eq("to", "top"));
}

#[test]
fn equality_ignoring_case() {
    assert!(eq_ignore_ascii_case("IMG", "img"));
    assert!(eq_ignore_ascii_case("ImG", "iMg"));
    assert!(eq_ignore_ascii_case("", ""));
    assert!(!eq_ignore_ascii_case("img", "imgs"));
    assert!(!eq_ignore_ascii_case("img", "imh"));
    // Only ASCII letters are folded.
    assert!(!eq_ignore_ascii_case("\u{c9}", "\u{e9}"));
}

#[test]
fn prefixes_and_suffixes() {
    assert!(starts_with("en-US", "en-"));
    assert!(starts_with("en-US", ""));
    assert!(starts_with("en-US", "en-US"));
    assert!(!starts_with("en", "en-"));
    assert!(!starts_with("fr-en-", "en-"));
    assert!(ends_with("photo.png", ".png"));
    assert!(ends_with("photo.png", ""));
    assert!(ends_with(".png", ".png"));
    assert!(!ends_with("png", ".png"));
    assert!(!ends_with("photo.png.gz", ".png"));
}

#[test]
fn substrings() {
    assert!(contains("hello world", "lo wo"));
    assert!(contains("hello", "hello"));
    assert!(contains("hello", ""));
    assert!(contains("", ""));
    assert!(contains("hello", "o"));
    assert!(contains("hello", "h"));
    assert!(!contains("hello", "world"));
    assert!(!contains("hello", "hello!"));
    assert!(!contains("", "a"));
    assert!(contains("aab", "ab"));
}

#[test]
fn splitting_keeps_empty_pieces() {
    assert_eq!(split_whitespace("a b"), vec!["a", "b"]);
    assert_eq!(split_whitespace("intro"), vec!["intro"]);
    assert_eq!(split_whitespace(""), vec![""]);
    assert_eq!(split_whitespace("a  b"), vec!["a", "", "b"]);
    assert_eq!(split_whitespace(" a"), vec!["", "a"]);
    assert_eq!(split_whitespace("a "), vec!["a", ""]);
    assert_eq!(split_whitespace("a\tb\nc\rd\x0Ce"), vec!["a", "b", "c", "d", "e"]);
    // A vertical tab does not separate.
    assert_eq!(split_whitespace("a\x0Bb"), vec!["a\x0Bb"]);
}

#[test]
fn splitting_agrees_with_std() {
    let separators: &[char] = &[' ', '\t', '\n', '\r', '\x0C'];
    for text in ["", " ", "a", "a b  c", "\tx\n", "one\x0Ctwo three "] {
        let expected: Vec<String> = text.split(separators).map(|s| s.to_string()).collect();
        assert_eq!(split_whitespace(text), expected);
    }
}

#[test]
fn tokens_are_found_whole() {
    assert!(has_token("intro sidebar", "sidebar"));
    assert!(has_token("intro sidebar", "intro"));
    assert!(!has_token("intro sidebar", "side"));
    assert!(!has_token("intro sidebar", "intro sidebar"));
    assert!(has_token("a  b", ""));
    assert!(!has_token("a b", ""));
    assert!(has_token("", ""));
    assert!(!has_token("Intro", "intro"));
}
