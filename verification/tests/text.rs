use rustcli::text::{
    chars_of, is_whitespace, same, scan, scan_back, slice, split_lines, split_words, starts_with,
    trim, CharClass,
};

#[test]
fn white_space_is_the_unicode_property() {
    for c in [
        '\t', '\n', '\u{0B}', '\u{0C}', '\r', ' ', '\u{85}', '\u{A0}', '\u{1680}', '\u{2000}',
        '\u{2005}', '\u{200A}', '\u{2028}', '\u{2029}', '\u{202F}', '\u{205F}', '\u{3000}',
    ] {
        assert!(is_whitespace(c));
    }
    for c in ['a', '0', '-', '\u{08}', '\u{0E}', '\u{1F}', '\u{200B}', '\u{180E}', '\u{FEFF}', '\u{2060}'] {
        assert!(!is_whitespace(c));
    }
}

#[test]
fn white_space_agrees_with_the_standard_library() {
    let mut code: u32 = 0;
    while code <= 0x10FFFF {
        if let Some(c) = char::from_u32(code) {
            assert_eq!(is_whitespace(c), c.is_whitespace());
        }
        code += 1;
    }
}

#[test]
fn classes_hold_their_characters() {
    assert!(CharClass::Whitespace.contains(' '));
    assert!(!CharClass::Whitespace.contains('x'));
    assert!(CharClass::Only('=').contains('='));
    assert!(!CharClass::Only('=').contains('-'));
}

#[test]
fn chars_are_listed_in_order() {
    assert_eq!(chars_of("a\u{e9}\u{3000}z"), vec!['a', '\u{e9}', '\u{3000}', 'z']);
    assert_eq!(chars_of(""), Vec::<char>::new());
}

#[test]
fn scans_stop_where_the_kind_changes() {
    let chars = chars_of("  ab=c  ");
    assert_eq!(scan(&chars, 0, 8, CharClass::Whitespace, true), 2);
    assert_eq!(scan(&chars, 2, 8, CharClass::Whitespace, false), 6);
    assert_eq!(scan(&chars, 2, 8, CharClass::Only('='), false), 4);
    assert_eq!(scan(&chars, 2, 3, CharClass::Only('='), false), 3);
    assert_eq!(scan(&chars, 6, 8, CharClass::Whitespace, true), 8);
    assert_eq!(scan(&chars, 5, 5, CharClass::Whitespace, true), 5);
    assert_eq!(scan_back(&chars, 0, 8, CharClass::Whitespace, true), 6);
    assert_eq!(scan_back(&chars, 0, 6, CharClass::Whitespace, true), 6);
    assert_eq!(scan_back(&chars, 0, 6, CharClass::Whitespace, false), 2);
    assert_eq!(scan_back(&chars, 7, 8, CharClass::Whitespace, true), 7);
}

#[test]
fn slices_count_characters_not_bytes() {
    assert_eq!(slice("h\u{e9}llo", 1, 3), "\u{e9}l");
    assert_eq!(slice("abc", 0, 3), "abc");
    assert_eq!(slice("abc", 2, 2), "");
}

#[test]
fn lines_end_at_line_feeds() {
    assert_eq!(split_lines("a\nb\nc"), vec!["a", "b", "c"]);
    assert_eq!(split_lines("a\nb\n"), vec!["a", "b"]);
    assert_eq!(split_lines("a\n\nb"), vec!["a", "", "b"]);
    assert_eq!(split_lines("\n"), vec![""]);
    assert_eq!(split_lines("\n\n"), vec!["", ""]);
    assert_eq!(split_lines("one"), vec!["one"]);
    assert_eq!(split_lines(""), Vec::<String>::new());
}

#[test]
fn a_carriage_return_before_a_line_feed_belongs_to_the_ending() {
    assert_eq!(split_lines("a\r\nb\r\n"), vec!["a", "b"]);
    assert_eq!(split_lines("a\r\r\nb"), vec!["a\r", "b"]);
    assert_eq!(split_lines("a\rb\nc\r"), vec!["a\rb", "c\r"]);
    assert_eq!(split_lines("\r\n"), vec![""]);
    assert_eq!(split_lines("\r"), vec!["\r"]);
}

#[test]
fn lines_agree_with_the_standard_library() {
    for text in ["", "\n", "a", "a\n", "a\r\n", "a\r", "\r\n\r\n", "x\n\ny\r\n\r\nz", "\n\r", "ab\r\ncd\ref\n"] {
        let expected: Vec<String> = text.lines().map(|line| line.to_string()).collect();
        assert_eq!(split_lines(text), expected);
    }
}

#[test]
fn words_are_runs_without_white_space() {
    assert_eq!(split_words("a b  c"), vec!["a", "b", "c"]);
    assert_eq!(split_words("  lead and trail \t\n"), vec!["lead", "and", "trail"]);
    assert_eq!(split_words("one"), vec!["one"]);
    assert_eq!(split_words("a\u{3000}b\u{A0}c"), vec!["a", "b", "c"]);
    assert_eq!(split_words("   "), Vec::<String>::new());
    assert_eq!(split_words(""), Vec::<String>::new());
}

#[test]
fn words_agree_with_the_standard_library() {
    for text in ["", " ", "a", " a", "a ", "a  b", "\ta\nb\r c\u{2003}d ", "--x=1 --y=2", "\u{200B}a b"] {
        let expected: Vec<String> = text.split_whitespace().map(|word| word.to_string()).collect();
        assert_eq!(split_words(text), expected);
    }
}

#[test]
fn trimming_removes_white_space_at_both_ends() {
    assert_eq!(trim("  a b \t"), "a b");
    assert_eq!(trim("a"), "a");
    assert_eq!(trim("\u{3000}x\u{85}"), "x");
    assert_eq!(trim("   "), "");
    assert_eq!(trim(""), "");
    assert_eq!(trim("\r\n x \r\n"), "x");
}

#[test]
fn trimming_agrees_with_the_standard_library() {
    for text in ["", " ", "a", " a", "a ", " a  b ", "\t\n", "\u{A0}q\u{2028}", "in side"] {
        assert_eq!(trim(text), text.trim());
    }
}

#[test]
fn prefixes_are_told() {
    assert!(starts_with("--body", "--body"));
    assert!(starts_with("--body and more", "--body"));
    assert!(starts_with("anything", ""));
    assert!(starts_with("", ""));
    assert!(!starts_with("--bod", "--body"));
    assert!(!starts_with("-body", "--body"));
    assert!(!starts_with(" --body", "--body"));
    assert!(!starts_with("", "x"));
}

#[test]
fn equal_texts_are_told() {
    assert!(same("GET", "GET"));
    assert!(same("", ""));
    assert!(!same("GET", "get"));
    assert!(!same("GET", "GETS"));
    assert!(!same("GETS", "GET"));
    assert!(!same("", "x"));
}
