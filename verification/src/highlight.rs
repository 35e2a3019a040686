//! Emphasising the query inside lines that arrive one at a time.
//!
//! A line that matches is rendered with every occurrence of the query, as it
//! was written, replaced by its emphasised form; a line that does not match
//! produces nothing. A line that could not be read is reported and the stream
//! goes on.

use vstd::prelude::*;
use colored::Colorize;
use crate::matcher::line_matches;
use crate::strings::replace;
use crate::text::{is_substring, lemma_replace_by_itself, option_text, replace_all};

verus! {

/// The escape sequence that switches a terminal to bold red.
pub open spec fn ansi_bold_red() -> Seq<char> {
    seq!['\x1b', '[', '1', ';', '3', '1', 'm']
}

/// The escape sequence that switches a terminal back to its defaults.
pub open spec fn ansi_reset() -> Seq<char> {
    seq!['\x1b', '[', '0', 'm']
}

/// `text` between the bold-red and the reset sequence.
pub open spec fn emphasized(text: Seq<char>) -> Seq<char> {
    ansi_bold_red() + text + ansi_reset()
}

/// `marked` is a form in which `text` may come back from being emphasised:
/// unchanged where colours are off, between the two escape sequences where
/// they are on, and with the reset sequence alone where they are switched
/// off while the text is being written. Of a text that itself holds a reset
/// sequence nothing is said.
pub open spec fn may_emphasize(text: Seq<char>, marked: Seq<char>) -> bool {
    !is_substring(ansi_reset(), text) ==> {
        ||| marked == text
        ||| marked == emphasized(text)
        ||| marked == text + ansi_reset()
    }
}

/// What a line gives when the query is shown as `marked`: the rendered line
/// if it matches, nothing if it does not. The occurrences replaced are those
/// of the query as written, also when the match ignored case.
pub open spec fn highlighted(
    line: Seq<char>,
    query: Seq<char>,
    ignore_case: bool,
    marked: Seq<char>,
) -> Option<Seq<char>> {
    if line_matches(query, line, ignore_case) {
        Some(replace_all(line, query, marked))
    } else {
        None
    }
}

/// What is done with one item of the input stream.
#[derive(Debug, PartialEq, Eq)]
pub enum StreamAction {
    /// Write this rendered line to the output.
    Emit(String),
    /// The line did not match: write nothing.
    Skip,
    /// The item could not be read: report this message and go on.
    Report(String),
}

impl Clone for StreamAction {
    fn clone(&self) -> (copy: StreamAction)
        ensures
            copy == *self,
    {
        match self {
            StreamAction::Emit(text) => StreamAction::Emit(text.clone()),
            StreamAction::Skip => StreamAction::Skip,
            StreamAction::Report(text) => StreamAction::Report(text.clone()),
        }
    }
}

/// Whether `action` is a right answer to `item`: a failed read is reported
/// with its message, a line that does not match is skipped, and a line that
/// matches is emitted, rendered with some form of the emphasised query.
pub open spec fn answers(
    item: Result<String, String>,
    query: Seq<char>,
    ignore_case: bool,
    action: StreamAction,
) -> bool {
    match item {
        Err(message) => action matches StreamAction::Report(text) && text@ == message@,
        Ok(line) => if line_matches(query, line@, ignore_case) {
            action matches StreamAction::Emit(text) && exists|marked: Seq<char>|
                may_emphasize(query, marked) && text@ == #[trigger] replace_all(
                    line@,
                    query,
                    marked,
                )
        } else {
            action is Skip
        },
    }
}

/// `text` in bold red, as `colored` renders it: `Colorize::red`, then
/// `Colorize::bold`, then the `Display` form of the `ColoredString`.
///
/// `colored` decides from the environment, from the terminal and from its
/// override switch whether colours are on, and asks again for each part it
/// writes. What comes back is therefore one of the forms of
/// `may_emphasize`, and two calls need not agree.
#[verifier::external_body]
pub(crate) fn bold_red(text: &str) -> (marked: String)
    ensures
        may_emphasize(text@, marked@),
{
    text.red().bold().to_string()
}

/// Renders `line` with the query shown as `marked`, if the line matches.
pub fn highlight_with(
    line: &str,
    query: &str,
    ignore_case: bool,
    marked: &str,
) -> (out: Option<String>)
    ensures
        option_text(out) == highlighted(line@, query@, ignore_case, marked@),
{
    if crate::matcher::matches(query, line, ignore_case) {
        Some(replace(line, query, marked))
    } else {
        None
    }
}

/// Renders `line` with the query emphasised, if the line matches.
///
/// The rendered line is the line with every occurrence of the query
/// replaced by its emphasised form. With colours off that is the line
/// unchanged; with colours on each occurrence stands between the bold-red
/// and the reset sequence.
pub fn highlight(line: &str, query: &str, ignore_case: bool) -> (out: Option<String>)
    ensures
        out is Some <==> line_matches(query@, line@, ignore_case),
        out matches Some(text) ==> exists|marked: Seq<char>|
            may_emphasize(query@, marked) && text@ == #[trigger] replace_all(
                line@,
                query@,
                marked,
            ),
        out matches Some(text) ==> !is_substring(ansi_reset(), query@) ==> {
            ||| text@ == line@
            ||| text@ == replace_all(line@, query@, emphasized(query@))
            ||| text@ == replace_all(line@, query@, query@ + ansi_reset())
        },
{
    let marked = bold_red(query);
    let out = highlight_with(line, query, ignore_case, marked.as_str());
    proof {
        lemma_replace_by_itself(line@, query@);
    }
    out
}

/// Decides what to do with one item of the input stream.
pub fn stream_step(
    item: &Result<String, String>,
    query: &str,
    ignore_case: bool,
) -> (action: StreamAction)
    ensures
        answers(*item, query@, ignore_case, action),
{
    match item {
        Ok(line) => match highlight(line.as_str(), query, ignore_case) {
            Some(text) => StreamAction::Emit(text),
            None => StreamAction::Skip,
        },
        Err(message) => StreamAction::Report(message.clone()),
    }
}

/// Runs a whole sequence of stream items through `stream_step`, one answer
/// per item and in order. A failed read is answered like any other item: the
/// items after it are still handled.
pub fn highlight_stream(
    items: &[Result<String, String>],
    query: &str,
    ignore_case: bool,
) -> (actions: Vec<StreamAction>)
    ensures
        actions@.len() == items@.len(),
        forall|i: int|
            0 <= i < items@.len() ==> answers(
                items@[i],
                query@,
                ignore_case,
                #[trigger] actions@[i],
            ),
{
    let mut actions: Vec<StreamAction> = Vec::new();
    let mut i: usize = 0;
    while i < items.len()
        invariant
            i <= items@.len(),
            actions@.len() == i,
            forall|k: int|
                0 <= k < i ==> answers(items@[k], query@, ignore_case, #[trigger] actions@[k]),
        decreases items@.len() - i,
    {
        let action = stream_step(&items[i], query, ignore_case);
        actions.push(action);
        i += 1;
    }
    actions
}

} // verus!
