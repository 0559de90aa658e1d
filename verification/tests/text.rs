use branch_forest::text::{chars_of, is_whitespace, split_words, trim};

#[test]
fn white_space_is_what_std_calls_white_space() {
    let mut code: u32 = 0;
    while code <= 0x10FFFF {
        if let Some(c) = char::from_u32(code) {
            assert_eq!(is_whitespace(c), c.is_whitespace(), "U+{:04X}", code);
        }
        code += 1;
    }
}

#[test]
fn white_space_ascii() {
    assert!(is_whitespace(' '));
    assert!(is_whitespace('\t'));
    assert!(is_whitespace('\n'));
    assert!(is_whitespace('\r'));
    assert!(is_whitespace('\u{0B}'));
    assert!(is_whitespace('\u{0C}'));
    assert!(!is_whitespace('a'));
    assert!(!is_whitespace('/'));
    assert!(!is_whitespace('\u{08}'));
    assert!(!is_whitespace('\u{0E}'));
    assert!(!is_whitespace('\u{1F}'));
    assert!(!is_whitespace('!'));
}

#[test]
fn white_space_beyond_ascii() {
    for c in ['\u{85}', '\u{A0}', '\u{1680}', '\u{2000}', '\u{2005}', '\u{200A}', '\u{2028}',
        '\u{2029}', '\u{202F}', '\u{205F}', '\u{3000}'] {
        assert!(is_whitespace(c), "U+{:04X}", c as u32);
    }
    for c in ['\u{84}', '\u{86}', '\u{A1}', '\u{180E}', '\u{1FFF}', '\u{200B}', '\u{2027}',
        '\u{202A}', '\u{2060}', '\u{3001}', '\u{FEFF}'] {
        assert!(!is_whitespace(c), "U+{:04X}", c as u32);
    }
}

#[test]
fn chars_of_gives_each_character() {
    assert_eq!(chars_of(""), Vec::<char>::new());
    assert_eq!(chars_of("a/b"), vec!['a', '/', 'b']);
    assert_eq!(chars_of("é\u{3000}x"), vec!['é', '\u{3000}', 'x']);
}

#[test]
fn trim_removes_both_ends() {
    assert_eq!(trim("  abc \n"), "abc");
    assert_eq!(trim("abc"), "abc");
    assert_eq!(trim("\ta b\t"), "a b");
    assert_eq!(trim("1f3c9e\n"), "1f3c9e");
}

#[test]
fn trim_of_blank_is_empty() {
    assert_eq!(trim(""), "");
    assert_eq!(trim(" \n\t "), "");
    assert_eq!(trim("\u{3000}"), "");
}

#[test]
fn trim_keeps_inner_white_space_and_other_characters() {
    assert_eq!(trim("\u{A0}é  ü\u{2028}"), "é  ü");
    assert_eq!(trim(" \u{200B} "), "\u{200B}");
}

#[test]
fn trim_agrees_with_std() {
    for s in ["", " ", "a", " a", "a ", "  a b  ", "\n\n", "x\ny", "\u{85}q\u{85}", " é ", "\r\nmain\r\n"] {
        assert_eq!(trim(s), s.trim());
    }
}

#[test]
fn split_words_of_lines() {
    assert_eq!(split_words("main\ndevelop\nfeature/x\n"), vec!["main", "develop", "feature/x"]);
}

#[test]
fn split_words_of_nothing() {
    assert_eq!(split_words(""), Vec::<String>::new());
    assert_eq!(split_words(" \n \t"), Vec::<String>::new());
}

#[test]
fn split_words_of_one_word() {
    assert_eq!(split_words("main"), vec!["main"]);
    assert_eq!(split_words("  main"), vec!["main"]);
    assert_eq!(split_words("main  "), vec!["main"]);
}

#[test]
fn split_words_at_runs_of_white_space() {
    assert_eq!(split_words("a  b\t\tc \n d"), vec!["a", "b", "c", "d"]);
    assert_eq!(split_words("a\u{3000}b\u{85}c"), vec!["a", "b", "c"]);
    assert_eq!(split_words("é ü"), vec!["é", "ü"]);
}

#[test]
fn split_words_agrees_with_std() {
    for s in ["", " ", "a", " a b ", "one\ntwo\n", "a\u{A0}b", "x  y   z", "\tq", "r\r\ns", "main\n\ndevelop"] {
        let expected: Vec<String> = s.split_whitespace().map(String::from).collect();
        assert_eq!(split_words(s), expected);
    }
}
