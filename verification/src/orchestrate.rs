//! Choosing how to run, and what a search of a file reports.

use vstd::prelude::*;
use vstd::string::StringExecFns;
use crate::config::{Config, ConfigView};
use crate::search::{matching_lines, search, search_case_insensitive};
use crate::text::{strings_of, texts_of};

verus! {

/// How the input reaches the program.
#[derive(Debug, Clone, Copy, PartialEq, Eq, Structural)]
pub enum Mode {
    /// Lines are piped in and are searched as they arrive.
    Pipe,
    /// A file is named and is searched as a whole.
    File,
}

/// The mode for an invocation: piped input is searched line by line, and
/// with a terminal on the input a file is searched.
pub fn select_mode(stdin_is_terminal: bool) -> (mode: Mode)
    ensures
        mode == if stdin_is_terminal {
            Mode::File
        } else {
            Mode::Pipe
        },
{
    if stdin_is_terminal {
        Mode::File
    } else {
        Mode::Pipe
    }
}

/// The line that opens a report.
pub open spec fn report_header() -> Seq<char> {
    "Result/s: "@
}

/// A matching line as the report shows it: behind a tab.
pub open spec fn indented(line: Seq<char>) -> Seq<char> {
    seq!['\t'] + line
}

/// What a search of `contents` under `config` reports: the header, then each
/// matching line, indented, in the order of the text.
pub open spec fn report_of(config: ConfigView, contents: Seq<char>) -> Seq<Seq<char>> {
    seq![report_header()] + matching_lines(
        config.query,
        contents,
        config.ignore_case,
    ).map_values(|line: Seq<char>| indented(line))
}

/// Searches `contents` as `config` asks and returns the report, line by
/// line: a header, then every matching line behind a tab.
pub fn run(config: &Config, contents: &str) -> (report: Vec<String>)
    ensures
        strings_of(report@) == report_of(config@, contents@),
{
    let results = if config.ignore_case {
        search_case_insensitive(config.query.as_str(), contents)
    } else {
        search(config.query.as_str(), contents)
    };
    let ghost found = matching_lines(config.query@, contents@, config.ignore_case);
    let mut report: Vec<String> = Vec::new();
    report.push(String::from_str("Result/s: "));
    let mut i: usize = 0;
    while i < results.len()
        invariant
            i <= results.len(),
            texts_of(results@) == found,
            report@.len() == i + 1,
            report@[0]@ == report_header(),
            forall|k: int| 0 <= k < i ==> (#[trigger] report@[k + 1])@ == indented(found[k]),
        decreases results.len() - i,
    {
        let mut line = String::from_str("\t");
        proof {
            reveal_strlit("\t");
            assert("\t"@ =~= seq!['\t']);
            assert(texts_of(results@)[i as int] == results@[i as int]@);
        }
        line.append(results[i]);
        report.push(line);
        i += 1;
    }
    proof {
        let shown = strings_of(report@);
        let expected = report_of(config@, contents@);
        assert(texts_of(results@).len() == results@.len());
        assert(shown.len() == expected.len());
        assert forall|k: int| 0 <= k < shown.len() implies shown[k] == expected[k] by {
            if k > 0 {
                assert(report@[(k - 1) + 1]@ == indented(found[k - 1]));
            }
        }
        assert(shown =~= expected);
    }
    report
}

} // verus!
