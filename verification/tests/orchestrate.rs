use minigrep::{run, select_mode, Config, Mode};

fn config(query: &str, ignore_case: bool) -> Config {
    Config {
        query: query.to_string(),
        file_path: "poem.txt".to_string(),
        ignore_case,
    }
}

#[test]
fn terminal_input_means_file_mode() {
    assert_eq!(select_mode(true), Mode::File);
    assert_eq!(select_mode(false), Mode::Pipe);
}

#[test]
fn report_has_header_and_indented_lines() {
    let contents = "Rust:\nsafe, fast, productive.\nPick three.\nDuct tape.";
    assert_eq!(
        run(&config("duct", false), contents),
        vec!["Result/s: ", "\tsafe, fast, productive."]
    );
}

#[test]
fn report_follows_the_case_flag() {
    let contents = "Rust:\nsafe, fast, productive.\nPick three.\nTrust me.";
    assert_eq!(
        run(&config("rUsT", true), contents),
        vec!["Result/s: ", "\tRust:", "\tTrust me."]
    );
    assert_eq!(run(&config("rUsT", false), contents), vec!["Result/s: "]);
}

#[test]
fn report_of_nothing_is_the_header() {
    assert_eq!(run(&config("x", false), ""), vec!["Result/s: "]);
    assert_eq!(run(&config("", true), ""), vec!["Result/s: "]);
}

#[test]
fn report_indents_empty_lines_too() {
    assert_eq!(
        run(&config("", false), "a\n\nb"),
        vec!["Result/s: ", "\ta", "\t", "\tb"]
    );
}
