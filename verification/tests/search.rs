use minigrep::matcher;
use minigrep::{search, search_case_insensitive};

#[test]
fn case_sensitive() {
    let query = "duct";
    let contents = "\
Rust:
safe, fast, productive.
Pick three.
Duct tape.";
    assert_eq!(vec!["safe, fast, productive."], search(query, contents));
}

#[test]
fn case_insensitive() {
    let query = "rUsT";
    let contents = "\
Rust:
safe, fast, productive.
Pick three.
Trust me.";

    assert_eq!(
        vec!["Rust:", "Trust me."],
        search_case_insensitive(query, contents)
    );
}

#[test]
fn capital_letter_is_no_match_when_case_counts() {
    let contents = "Rust:\nsafe, fast, productive.\nPick three.\nDuct tape.";
    let found = search("duct", contents);
    assert_eq!(found, vec!["safe, fast, productive."]);
    assert!(!found.contains(&"Duct tape."));
}

#[test]
fn empty_query_returns_every_line() {
    let contents = "one\n\ntwo  \n three";
    assert_eq!(search("", contents), vec!["one", "", "two  ", " three"]);
    assert_eq!(
        search_case_insensitive("", contents),
        vec!["one", "", "two  ", " three"]
    );
}

#[test]
fn empty_contents_has_no_lines() {
    assert_eq!(search("a", ""), Vec::<&str>::new());
    assert_eq!(search("", ""), Vec::<&str>::new());
    assert_eq!(search_case_insensitive("", ""), Vec::<&str>::new());
}

#[test]
fn results_keep_order_and_repeats() {
    let contents = "b a\nc\na b\nb a\nd\na";
    assert_eq!(search("a", contents), vec!["b a", "a b", "b a", "a"]);
}

#[test]
fn no_line_matches() {
    assert_eq!(search("zebra", "one\ntwo\nthree"), Vec::<&str>::new());
}

#[test]
fn query_longer_than_line() {
    assert_eq!(search("abcd", "abc\nabcd\nab"), vec!["abcd"]);
}

#[test]
fn trailing_whitespace_is_kept() {
    assert_eq!(search("x", "x \t\n  x"), vec!["x \t", "  x"]);
}

#[test]
fn final_line_feed_adds_no_line() {
    assert_eq!(search("", "a\nb\n"), vec!["a", "b"]);
    assert_eq!(search("", "\n"), vec![""]);
    assert_eq!(search("", "\n\n"), vec!["", ""]);
}

#[test]
fn carriage_return_before_line_feed_ends_the_line() {
    assert_eq!(search("", "a\r\nb\r\n"), vec!["a", "b"]);
    assert_eq!(search("a", "a\r\nb"), vec!["a"]);
    assert_eq!(search("", "a\r\r\nb"), vec!["a\r", "b"]);
}

#[test]
fn lone_carriage_return_stays_in_the_line() {
    assert_eq!(search("", "a\rb\nc"), vec!["a\rb", "c"]);
    assert_eq!(search("", "a\r"), vec!["a\r"]);
    assert_eq!(search("\r", "a\r\nb\rc"), vec!["b\rc"]);
}

#[test]
fn line_feed_in_query_finds_nothing() {
    assert_eq!(search("a\nb", "a\nb"), Vec::<&str>::new());
}

#[test]
fn search_returns_slices_of_the_contents() {
    let contents = String::from("first\nsecond\nthird");
    let found = search("d", &contents);
    assert_eq!(found, vec!["second", "third"]);
    let start = contents.as_ptr() as usize;
    let at = found[0].as_ptr() as usize;
    assert_eq!(at - start, 6);
}

#[test]
fn ignoring_case_finds_what_the_exact_search_finds() {
    let contents = "Rust:\nsafe, fast, productive.\nTrust me.\nRUST\nrust";
    for query in ["rust", "Rust", "RUST", "us", "", "fast", "T"] {
        let exact = search(query, contents);
        let folded = search_case_insensitive(query, contents);
        for line in &exact {
            assert!(folded.contains(line));
        }
        let narrowed: Vec<&str> = folded
            .iter()
            .copied()
            .filter(|line| line.contains(query))
            .collect();
        assert_eq!(exact, narrowed);
    }
}

#[test]
fn ignoring_case_folds_both_sides() {
    let contents = "ÄPFEL\näpfel\nApfel";
    assert_eq!(search_case_insensitive("Äp", contents), vec!["ÄPFEL", "äpfel"]);
    assert_eq!(search("Äp", contents), Vec::<&str>::new());
    assert_eq!(search("ÄP", contents), vec!["ÄPFEL"]);
}

#[test]
fn final_sigma_escapes_the_folded_search() {
    let contents = "A\u{3a3}";
    assert_eq!(search("\u{3a3}", contents), vec!["A\u{3a3}"]);
    assert_eq!(
        search_case_insensitive("\u{3a3}", contents),
        Vec::<&str>::new()
    );
}

#[test]
fn searching_twice_gives_the_same() {
    let contents = "Rust:\nsafe, fast, productive.\nPick three.\nTrust me.";
    assert_eq!(search("st", contents), search("st", contents));
    assert_eq!(
        search_case_insensitive("RU", contents),
        search_case_insensitive("RU", contents)
    );
    assert_eq!(search("st", contents), vec!["Rust:", "safe, fast, productive.", "Trust me."]);
}

#[test]
fn matches_with_and_without_case() {
    assert!(matcher::matches("duct", "productive", false));
    assert!(!matcher::matches("Duct", "productive", false));
    assert!(matcher::matches("Duct", "productive", true));
    assert!(matcher::matches("duct", "DUCT TAPE", true));
    assert!(!matcher::matches("duct", "DUCT TAPE", false));
    assert!(!matcher::matches("tape", "duct", true));
}

#[test]
fn matches_empty_query_always() {
    assert!(matcher::matches("", "anything", false));
    assert!(matcher::matches("", "anything", true));
    assert!(matcher::matches("", "", false));
    assert!(matcher::matches("", "", true));
    assert!(!matcher::matches("a", "", false));
}

#[test]
fn matches_at_both_ends() {
    assert!(matcher::matches("ab", "abxx", false));
    assert!(matcher::matches("ab", "xxab", false));
    assert!(matcher::matches("abab", "xababx", false));
    assert!(!matcher::matches("abb", "ababab", false));
}
