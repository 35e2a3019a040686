use minigrep::{highlight, highlight_stream, highlight_with, stream_step, StreamAction};

const ON: &str = "\u{1b}[1;31m";
const OFF: &str = "\u{1b}[0m";

fn emitted(action: StreamAction) -> Option<String> {
    match action {
        StreamAction::Emit(text) => Some(text),
        _ => None,
    }
}

#[test]
fn every_occurrence_is_replaced() {
    assert_eq!(
        highlight_with("to be or not to be", "to", false, "<to>"),
        Some("<to> be or not <to> be".to_string())
    );
}

#[test]
fn occurrences_do_not_overlap() {
    assert_eq!(
        highlight_with("aaaaa", "aa", false, "[aa]"),
        Some("[aa][aa]a".to_string())
    );
    assert_eq!(
        highlight_with("ababab", "aba", false, "X"),
        Some("Xbab".to_string())
    );
}

#[test]
fn replacement_is_not_searched_again() {
    assert_eq!(highlight_with("a", "a", false, "aa"), Some("aa".to_string()));
    assert_eq!(highlight_with("xax", "a", false, ""), Some("xx".to_string()));
}

#[test]
fn line_without_the_query_gives_nothing() {
    assert_eq!(highlight_with("Duct tape.", "duct", false, "<duct>"), None);
    assert_eq!(highlight("Duct tape.", "duct", false), None);
    assert_eq!(highlight_with("", "a", false, "b"), None);
}

#[test]
fn folded_match_marks_only_the_query_as_written() {
    assert_eq!(
        highlight_with("Duct tape and duct", "duct", true, "<duct>"),
        Some("Duct tape and <duct>".to_string())
    );
    assert_eq!(
        highlight_with("Duct tape.", "duct", true, "<duct>"),
        Some("Duct tape.".to_string())
    );
}

#[test]
fn empty_query_marks_every_position() {
    assert_eq!(highlight_with("ab", "", false, "-"), Some("-a-b-".to_string()));
    assert_eq!(highlight_with("", "", false, "-"), Some("-".to_string()));
}

#[test]
fn emphasis_is_bold_red_when_colours_are_on() {
    colored::control::set_override(true);
    assert_eq!(
        highlight("safe, fast, productive.", "duct", false),
        Some(format!("safe, fast, pro{ON}duct{OFF}ive."))
    );
    assert_eq!(
        highlight("to be or not to be", "to", false),
        Some(format!("{ON}to{OFF} be or not {ON}to{OFF} be"))
    );
    colored::control::set_override(false);
    assert_eq!(
        highlight("safe, fast, productive.", "duct", false),
        Some("safe, fast, productive.".to_string())
    );
    colored::control::unset_override();
}

#[test]
fn emphasis_is_one_of_two_forms() {
    let out = highlight("Pick three.", "three", false).unwrap();
    assert!(out == "Pick three." || out == format!("Pick {ON}three{OFF}."));
}

#[test]
fn step_emits_skips_and_reports() {
    let hit: Result<String, String> = Ok("Trust me.".to_string());
    let miss: Result<String, String> = Ok("Pick three.".to_string());
    let broken: Result<String, String> = Err("stream did not contain valid UTF-8".to_string());
    let text = emitted(stream_step(&hit, "rust", false)).unwrap();
    assert!(text == "Trust me." || text == format!("T{ON}rust{OFF} me."));
    assert_eq!(stream_step(&miss, "rust", false), StreamAction::Skip);
    assert_eq!(
        stream_step(&broken, "rust", false),
        StreamAction::Report("stream did not contain valid UTF-8".to_string())
    );
}

#[test]
fn step_in_pipe_mode_keeps_case() {
    let line: Result<String, String> = Ok("Rust:".to_string());
    assert_eq!(stream_step(&line, "rust", false), StreamAction::Skip);
    assert_eq!(
        stream_step(&line, "rust", true),
        StreamAction::Emit("Rust:".to_string())
    );
}

#[test]
fn a_failed_read_does_not_end_the_stream() {
    let items: Vec<Result<String, String>> = vec![
        Ok("Rust:".to_string()),
        Err("bad line".to_string()),
        Ok("Pick three.".to_string()),
        Ok("Trust me.".to_string()),
    ];
    let actions = highlight_stream(&items, "us", false);
    assert_eq!(actions.len(), 4);
    let first = emitted(actions[0].clone()).unwrap();
    assert!(first == "Rust:" || first == format!("R{ON}us{OFF}t:"));
    assert_eq!(actions[1], StreamAction::Report("bad line".to_string()));
    assert_eq!(actions[2], StreamAction::Skip);
    let last = emitted(actions[3].clone()).unwrap();
    assert!(last == "Trust me." || last == format!("Tr{ON}us{OFF}t me."));
}

#[test]
fn empty_stream_gives_no_actions() {
    let items: Vec<Result<String, String>> = Vec::new();
    assert_eq!(highlight_stream(&items, "a", false), Vec::<StreamAction>::new());
}
