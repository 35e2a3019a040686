use minigrep::strings::{
    contains, find_bytes, lines, replace, same_text, split_char, split_first, strip_cr,
};

const TEXTS: [&str; 14] = [
    "",
    "a",
    "aaaa",
    "abababab",
    "to be or not to be",
    "Rust:\nsafe, fast, productive.\nPick three.\nDuct tape.",
    "line\r\nline\rline\n\rline\r",
    "\n",
    "\n\n\r\n",
    "ñandú y pingüino",
    "日本語のテキスト、日本",
    "a\u{1F600}b\u{1F600}\u{1F600}c",
    "\u{3a3}\u{3c3}\u{3c2}",
    "e\u{301}e\u{301}",
];

const PATTERNS: [&str; 16] = [
    "",
    "a",
    "aa",
    "aba",
    "to",
    "be",
    "\n",
    "\r",
    "\r\n",
    "ú",
    "ü",
    "日本",
    "\u{1F600}",
    "\u{301}",
    "e",
    "line",
];

#[test]
fn contains_agrees_with_std() {
    for text in TEXTS {
        for pattern in PATTERNS {
            assert_eq!(contains(text, pattern), text.contains(pattern));
        }
        assert!(contains(text, text));
    }
}

#[test]
fn contains_finds_at_both_ends_and_not_beyond() {
    assert!(contains("needle in hay", "needle"));
    assert!(contains("hay with needle", "needle"));
    assert!(!contains("needl", "needle"));
    assert!(!contains("", "a"));
    assert!(contains("", ""));
}

#[test]
fn contains_does_not_match_half_a_character() {
    assert!(!contains("\u{e9}", "\u{e8}"));
    assert!(!contains("日", "旧"));
    assert!(contains("x日y", "日"));
}

#[test]
fn find_bytes_gives_the_first_place() {
    assert_eq!(find_bytes(b"abcabc", b"bc"), Some(1));
    assert_eq!(find_bytes(b"abcabc", b"abc"), Some(0));
    assert_eq!(find_bytes(b"abcabc", b"cab"), Some(2));
    assert_eq!(find_bytes(b"abcabc", b"abcabc"), Some(0));
    assert_eq!(find_bytes(b"aab", b"ab"), Some(1));
    assert_eq!(find_bytes(b"abcabc", b"abcabcd"), None);
    assert_eq!(find_bytes(b"abcabc", b"cc"), None);
    assert_eq!(find_bytes(b"abc", b""), Some(0));
    assert_eq!(find_bytes(b"", b""), Some(0));
    assert_eq!(find_bytes(b"", b"a"), None);
}

#[test]
fn split_first_agrees_with_std() {
    for text in TEXTS {
        for pattern in PATTERNS {
            assert_eq!(split_first(text, pattern), text.split_once(pattern));
        }
    }
}

#[test]
fn split_first_takes_the_leftmost() {
    assert_eq!(split_first("a=b=c", "="), Some(("a", "b=c")));
    assert_eq!(split_first("aaa", "aa"), Some(("", "a")));
    assert_eq!(split_first("abc", "c"), Some(("ab", "")));
    assert_eq!(split_first("abc", ""), Some(("", "abc")));
    assert_eq!(split_first("abc", "d"), None);
}

#[test]
fn split_char_takes_one_character() {
    assert_eq!(split_char(""), None);
    assert_eq!(split_char("a"), Some(("a", "")));
    assert_eq!(split_char("ab"), Some(("a", "b")));
    assert_eq!(split_char("ñu"), Some(("ñ", "u")));
    assert_eq!(split_char("日本"), Some(("日", "本")));
    assert_eq!(split_char("\u{1F600}!"), Some(("\u{1F600}", "!")));
    assert_eq!(split_char("e\u{301}"), Some(("e", "\u{301}")));
}

#[test]
fn strip_cr_takes_one_carriage_return() {
    assert_eq!(strip_cr("line\r"), "line");
    assert_eq!(strip_cr("line\r\r"), "line\r");
    assert_eq!(strip_cr("line"), "line");
    assert_eq!(strip_cr("\rline"), "\rline");
    assert_eq!(strip_cr("\r"), "");
    assert_eq!(strip_cr(""), "");
    assert_eq!(strip_cr("ñ\r"), "ñ");
    assert_eq!(strip_cr("日本"), "日本");
}

#[test]
fn lines_agree_with_std() {
    for text in TEXTS {
        let expected: Vec<&str> = text.lines().collect();
        assert_eq!(lines(text), expected);
    }
}

#[test]
fn lines_end_at_line_feeds() {
    assert_eq!(lines(""), Vec::<&str>::new());
    assert_eq!(lines("one"), vec!["one"]);
    assert_eq!(lines("one\n"), vec!["one"]);
    assert_eq!(lines("one\ntwo"), vec!["one", "two"]);
    assert_eq!(lines("one\n\ntwo\n"), vec!["one", "", "two"]);
    assert_eq!(lines("one\r\ntwo\r\n"), vec!["one", "two"]);
    assert_eq!(lines("one\rtwo\r"), vec!["one\rtwo\r"]);
    assert_eq!(lines("\r\n"), vec![""]);
    assert_eq!(lines("\n\r"), vec!["", "\r"]);
}

#[test]
fn replace_agrees_with_std() {
    for text in TEXTS {
        for pattern in PATTERNS {
            for with in ["", "-", "<b>", "aa", "日"] {
                assert_eq!(replace(text, pattern, with), text.replace(pattern, with));
            }
            assert_eq!(replace(text, pattern, pattern), text);
        }
    }
}

#[test]
fn replace_goes_from_the_left() {
    assert_eq!(replace("aaaa", "aa", "b"), "bb");
    assert_eq!(replace("aaa", "aa", "b"), "ba");
    assert_eq!(replace("abab", "ab", "abab"), "abababab");
    assert_eq!(replace("this is old", "is", "an"), "than an old");
    assert_eq!(replace("abc", "x", "y"), "abc");
    assert_eq!(replace("", "x", "y"), "");
}

#[test]
fn replace_of_nothing_goes_between_the_characters() {
    assert_eq!(replace("", "", "-"), "-");
    assert_eq!(replace("ab", "", "-"), "-a-b-");
    assert_eq!(replace("ñandú", "", "|"), "|ñ|a|n|d|ú|");
    assert_eq!(replace("日本", "", ""), "日本");
}

#[test]
fn same_text_compares_characters() {
    assert!(same_text("", ""));
    assert!(same_text("help", "help"));
    assert!(!same_text("help", "Help"));
    assert!(!same_text("help", "hel"));
    assert!(!same_text("hel", "help"));
    assert!(!same_text("e\u{301}", "\u{e9}"));
    assert!(same_text("日本語", "日本語"));
}
