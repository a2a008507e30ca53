use kibo::paths::{ancestors_of, join, plain_name, split_path};
use kibo::text::{
    chars_of, clone_texts, contains_sub, contains_text, count_char, has_char, has_prefix,
    has_suffix, is_blank, is_whitespace, join as join_texts, push_all, push_decimal, push_padded,
    push_str, split_words, text_of,
};

fn chars(s: &str) -> Vec<char> {
    s.chars().collect()
}

#[test]
fn texts_and_their_characters() {
    for s in ["", "a", "hello world", "d\u{e9}j\u{e0} vu \u{1f600}"] {
        assert_eq!(chars_of(s), chars(s));
        assert_eq!(text_of(&chars(s)), s);
    }
    let mut buf = chars("ab");
    push_all(&mut buf, &chars("cd"));
    push_str(&mut buf, "ef");
    assert_eq!(text_of(&buf), "abcdef");
}

#[test]
fn prefixes_suffixes_and_parts() {
    let cases = [("", ""), ("abc", ""), ("abc", "a"), ("abc", "abc"), ("abc", "abcd"), ("abc", "b"),
        ("abc", "bc"), ("abc", "c"), ("", "a"), ("aab", "ab"), ("a..b", ".."), ("a.b.", ".."),
        ("..", ".."), (".", ".."), ("x**", "**"), ("*x*", "**")];
    for (s, p) in cases {
        assert_eq!(has_prefix(&chars(s), &chars(p)), s.starts_with(p), "{:?} {:?}", s, p);
        assert_eq!(has_suffix(&chars(s), &chars(p)), s.ends_with(p), "{:?} {:?}", s, p);
        assert_eq!(contains_sub(&chars(s), &chars(p)), s.contains(p), "{:?} {:?}", s, p);
    }
    assert!(has_char(&chars("a/b"), '/'));
    assert!(!has_char(&chars("ab"), '/'));
    assert!(!has_char(&chars(""), '/'));
    assert_eq!(count_char(&chars("a/b//c"), '/'), 3);
    assert_eq!(count_char(&chars(""), '/'), 0);
    assert_eq!(count_char(&chars("abc"), '/'), 0);
}

#[test]
fn blank_texts() {
    for s in ["", " ", " \t\n", "\u{a0}", "\u{2003} ", " a ", "a", "\u{200b}"] {
        assert_eq!(is_blank(&chars(s)), s.trim().is_empty(), "{:?}", s);
    }
}

#[test]
fn words_as_the_standard_library_splits_them() {
    for s in [
        "",
        " ",
        "a",
        " a",
        "a ",
        "a b",
        "  a   b  ",
        "a\tb\nc\r\nd",
        "x\u{a0}y\u{2003}z",
        "one two  three   four",
        "--flag value",
    ] {
        let expected: Vec<String> = s.split_whitespace().map(|w| w.to_string()).collect();
        assert_eq!(split_words(s), expected, "{:?}", s);
    }
}

#[test]
fn joining() {
    let list = |items: &[&str]| items.iter().map(|s| s.to_string()).collect::<Vec<String>>();
    assert_eq!(join_texts(&list(&[]), ","), "");
    assert_eq!(join_texts(&list(&["a"]), ","), "a");
    assert_eq!(join_texts(&list(&["a", "b", "c"]), ", "), "a, b, c");
    assert_eq!(join_texts(&list(&["", ""]), "-"), "-");
    assert_eq!(join_texts(&list(&["a", "b"]), ""), "ab");
    assert!(contains_text(&list(&["a", "b"]), "b"));
    assert!(!contains_text(&list(&["a", "b"]), "c"));
    assert!(!contains_text(&list(&[]), ""));
    assert_eq!(clone_texts(&list(&["a", "b"])), list(&["a", "b"]));
}

#[test]
fn numbers_in_decimal() {
    for n in [0u64, 1, 9, 10, 11, 99, 100, 101, 1234567890, u32::MAX as u64, u64::MAX] {
        let mut buf = chars("n=");
        push_decimal(&mut buf, n);
        assert_eq!(text_of(&buf), format!("n={}", n));
    }
}

#[test]
fn filling_up_to_a_width() {
    for (s, width) in [("", 0usize), ("", 3), ("ab", 1), ("ab", 2), ("ab", 5), ("d\u{e9}j\u{e0}", 6)] {
        let mut buf = chars("[");
        push_padded(&mut buf, &chars(s), width);
        buf.push(']');
        assert_eq!(text_of(&buf), format!("[{:<width$}]", s, width = width));
    }
}

#[test]
fn the_names_of_a_path() {
    let cases: [(&str, &[&str]); 8] = [
        ("", &[""]),
        ("a", &["a"]),
        ("a/b", &["a", "b"]),
        ("/a", &["", "a"]),
        ("a/", &["a", ""]),
        ("a//b", &["a", "", "b"]),
        ("./a/../b", &[".", "a", "..", "b"]),
        ("/", &["", ""]),
    ];
    for (path, names) in cases {
        assert_eq!(split_path(path), names.to_vec(), "{:?}", path);
    }
    assert!(plain_name(&chars("a")));
    assert!(plain_name(&chars("...")));
    assert!(plain_name(&chars(".a")));
    assert!(!plain_name(&chars("")));
    assert!(!plain_name(&chars(".")));
    assert!(!plain_name(&chars("..")));
}

#[test]
fn the_directories_above_a_path() {
    let cases: [(&str, &[&str]); 7] = [
        ("", &[]),
        ("a.txt", &[]),
        ("src/a.txt", &["src"]),
        ("a/b/c/d.txt", &["a", "a/b", "a/b/c"]),
        ("/a/b", &["/a"]),
        ("a/", &["a"]),
        ("/", &[]),
    ];
    for (path, above) in cases {
        assert_eq!(ancestors_of(path), above.to_vec(), "{:?}", path);
    }
    assert_eq!(join("a/b", "c"), "a/b/c");
}

#[test]
fn white_space_is_what_the_standard_library_calls_white_space() {
    let mut white = 0;
    for code in 0..=0x10FFFFu32 {
        if let Some(c) = char::from_u32(code) {
            assert_eq!(is_whitespace(c), c.is_whitespace(), "U+{:04X}", code);
            if is_whitespace(c) {
                white += 1;
            }
        }
    }
    assert_eq!(white, 25);
    assert!(is_whitespace(' '));
    assert!(is_whitespace('\t'));
    assert!(is_whitespace('\u{3000}'));
    assert!(!is_whitespace('\u{200b}'));
    assert!(!is_whitespace('\u{180e}'));
    assert!(!is_whitespace('a'));
}
