//! The mathematical model of text that the contracts of this crate speak of.
//!
//! A string is its sequence of characters. Lines, containment and replacement
//! are defined here once, as specification functions, and the executable
//! functions elsewhere are stated against them.

use vstd::prelude::*;

verus! {

/// `needle` occurs in `hay` starting at character index `at`.
pub open spec fn occurs_at(needle: Seq<char>, hay: Seq<char>, at: int) -> bool {
    &&& 0 <= at
    &&& at + needle.len() <= hay.len()
    &&& hay.subrange(at, at + needle.len()) == needle
}

/// `needle` occurs somewhere in `hay`. The empty sequence occurs in every
/// sequence.
pub open spec fn is_substring(needle: Seq<char>, hay: Seq<char>) -> bool {
    exists|at: int| occurs_at(needle, hay, at)
}

/// The number of characters of `text` that come before its first line feed,
/// or the length of `text` if it has none.
pub open spec fn line_len(text: Seq<char>) -> nat
    decreases text.len(),
{
    if text.len() == 0 || text[0] == '\n' {
        0
    } else {
        1 + line_len(text.drop_first())
    }
}

/// A line as it is reported: a carriage return that stood directly before the
/// line feed belongs to the terminator.
pub open spec fn without_trailing_cr(line: Seq<char>) -> Seq<char> {
    if line.len() > 0 && line.last() == '\r' {
        line.drop_last()
    } else {
        line
    }
}

/// The lines of `text`, in order and without their terminators.
///
/// A line ends at a line feed, or at a carriage return directly followed by a
/// line feed. The last line needs no terminator; a text that ends in one has
/// no further, empty line after it. A carriage return that is not followed by
/// a line feed is an ordinary character of its line.
pub open spec fn lines_of(text: Seq<char>) -> Seq<Seq<char>>
    decreases text.len(),
{
    let n = line_len(text);
    if text.len() == 0 {
        Seq::empty()
    } else if n >= text.len() {
        seq![text]
    } else {
        seq![without_trailing_cr(text.take(n as int))] + lines_of(text.skip((n + 1) as int))
    }
}

/// `text` with every occurrence of `pattern` replaced by `with`, scanning
/// from the left and never looking again at characters already replaced.
///
/// The empty pattern occurs before every character and at the end, so `with`
/// is then placed at each of those positions.
pub open spec fn replace_all(text: Seq<char>, pattern: Seq<char>, with: Seq<char>) -> Seq<char>
    decreases text.len(),
{
    if text.len() == 0 {
        if pattern.len() == 0 {
            with
        } else {
            text
        }
    } else if pattern.len() == 0 {
        with + seq![text[0]] + replace_all(text.skip(1), pattern, with)
    } else if pattern.is_prefix_of(text) {
        with + replace_all(text.skip(pattern.len() as int), pattern, with)
    } else {
        seq![text[0]] + replace_all(text.skip(1), pattern, with)
    }
}

/// The character sequence of an optional string.
pub open spec fn option_text(item: Option<String>) -> Option<Seq<char>> {
    match item {
        Some(s) => Some(s@),
        None => None,
    }
}

/// The character sequences of a sequence of string slices.
pub open spec fn texts_of(items: Seq<&str>) -> Seq<Seq<char>> {
    items.map_values(|s: &str| s@)
}

/// The character sequences of a sequence of strings.
pub open spec fn strings_of(items: Seq<String>) -> Seq<Seq<char>> {
    items.map_values(|s: String| s@)
}

/// The empty sequence occurs in every sequence.
pub proof fn lemma_empty_is_substring(hay: Seq<char>)
    ensures
        is_substring(Seq::<char>::empty(), hay),
{
    assert(hay.subrange(0, 0) =~= Seq::<char>::empty());
    assert(occurs_at(Seq::<char>::empty(), hay, 0));
}

/// A character of a text occurs there as a text of one character.
pub proof fn lemma_char_occurs(text: Seq<char>, at: int)
    requires
        0 <= at < text.len(),
    ensures
        occurs_at(seq![text[at]], text, at),
{
    assert(text.subrange(at, at + 1) =~= seq![text[at]]);
}

/// Where the first line of a text ends: no line feed stands before that
/// position, and one stands at it unless the text ends there.
pub proof fn lemma_line_len(text: Seq<char>)
    ensures
        line_len(text) <= text.len(),
        forall|i: int| 0 <= i < line_len(text) ==> text[i] != '\n',
        line_len(text) < text.len() ==> text[line_len(text) as int] == '\n',
    decreases text.len(),
{
    if text.len() > 0 && text[0] != '\n' {
        let rest = text.drop_first();
        lemma_line_len(rest);
        assert forall|i: int| 0 <= i < line_len(text) implies text[i] != '\n' by {
            if i > 0 {
                assert(text[i] == rest[i - 1]);
            }
        }
        if line_len(text) < text.len() {
            assert(text[line_len(text) as int] == rest[line_len(rest) as int]);
        }
    }
}

/// No line holds a line feed: the terminators are not part of the lines.
pub proof fn lemma_lines_hold_no_line_feed(text: Seq<char>)
    ensures
        forall|k: int|
            0 <= k < lines_of(text).len() ==> !(#[trigger] lines_of(text)[k]).contains('\n'),
    decreases text.len(),
{
    let n = line_len(text);
    lemma_line_len(text);
    if text.len() > 0 && n < text.len() {
        let rest = text.skip((n + 1) as int);
        lemma_lines_hold_no_line_feed(rest);
        let first = without_trailing_cr(text.take(n as int));
        assert forall|k: int| 0 <= k < lines_of(text).len() implies !(#[trigger] lines_of(
            text,
        )[k]).contains('\n') by {
            if k == 0 {
                assert(lines_of(text)[0] == first);
                assert forall|i: int| 0 <= i < first.len() implies first[i] != '\n' by {
                    assert(first[i] == text[i]);
                }
            } else {
                assert(lines_of(text)[k] == lines_of(rest)[k - 1]);
            }
        }
    }
}

/// In a text that begins with a line, a line feed and more text, the first
/// line is that line, and the other lines are those of the text behind the
/// line feed.
pub proof fn lemma_lines_of_first(text: Seq<char>, line: Seq<char>, after: Seq<char>)
    requires
        text == line + seq!['\n'] + after,
        !line.contains('\n'),
    ensures
        line_len(text) == line.len(),
        lines_of(text) == seq![without_trailing_cr(line)] + lines_of(after),
    decreases line.len(),
{
    if line.len() > 0 {
        assert(line[0] != '\n') by {
            assert(line.contains(line[0]));
        }
        assert(text[0] == line[0]);
        let shorter = line.drop_first();
        assert(text.drop_first() =~= shorter + seq!['\n'] + after);
        assert(!shorter.contains('\n')) by {
            if shorter.contains('\n') {
                let i = choose|i: int| 0 <= i < shorter.len() && shorter[i] == '\n';
                assert(line[i + 1] == '\n');
            }
        }
        lemma_lines_of_first(text.drop_first(), shorter, after);
    } else {
        assert(text[0] == '\n');
    }
    let n = line_len(text);
    assert(text.take(n as int) =~= line);
    assert(text.skip((n + 1) as int) =~= after);
}

/// A text that is not empty and holds no line feed is one line.
pub proof fn lemma_lines_of_last(text: Seq<char>)
    requires
        text.len() > 0,
        !text.contains('\n'),
    ensures
        lines_of(text) == seq![text],
{
    lemma_line_len(text);
    if line_len(text) < text.len() {
        assert(text.contains(text[line_len(text) as int]));
    }
}

/// Replacing a pattern by itself changes nothing.
pub proof fn lemma_replace_by_itself(text: Seq<char>, pattern: Seq<char>)
    ensures
        replace_all(text, pattern, pattern) == text,
    decreases text.len(),
{
    if text.len() == 0 {
        assert(pattern.len() == 0 ==> pattern =~= text);
    } else if pattern.len() == 0 {
        lemma_replace_by_itself(text.skip(1), pattern);
        assert(pattern + seq![text[0]] + text.skip(1) =~= text);
    } else if pattern.is_prefix_of(text) {
        lemma_replace_by_itself(text.skip(pattern.len() as int), pattern);
        assert(pattern + text.skip(pattern.len() as int) =~= text);
    } else {
        lemma_replace_by_itself(text.skip(1), pattern);
        assert(seq![text[0]] + text.skip(1) =~= text);
    }
}

/// An occurrence behind the first character of a text is an occurrence in
/// the text, one place further on.
proof fn lemma_occurrence_behind_first(pattern: Seq<char>, text: Seq<char>, at: int)
    requires
        text.len() > 0,
        occurs_at(pattern, text.skip(1), at),
    ensures
        occurs_at(pattern, text, at + 1),
{
    assert(text.subrange(at + 1, at + 1 + pattern.len()) =~= text.skip(1).subrange(
        at,
        at + pattern.len(),
    ));
}

/// A text in which the pattern does not occur is left as it is, whatever the
/// replacement.
pub proof fn lemma_replace_without_occurrence(text: Seq<char>, pattern: Seq<char>, with: Seq<char>)
    requires
        !is_substring(pattern, text),
    ensures
        replace_all(text, pattern, with) == text,
    decreases text.len(),
{
    if pattern.len() == 0 {
        assert(pattern =~= Seq::<char>::empty());
        lemma_empty_is_substring(text);
    } else if text.len() > 0 {
        let rest = text.skip(1);
        assert(!pattern.is_prefix_of(text)) by {
            if pattern.is_prefix_of(text) {
                assert(occurs_at(pattern, text, 0));
            }
        }
        assert(!is_substring(pattern, rest)) by {
            if is_substring(pattern, rest) {
                let at = choose|at: int| occurs_at(pattern, rest, at);
                lemma_occurrence_behind_first(pattern, text, at);
            }
        }
        lemma_replace_without_occurrence(rest, pattern, with);
        assert(seq![text[0]] + rest =~= text);
    }
}

/// Up to the first occurrence of a pattern a text is kept as it is, the
/// occurrence is replaced, and the replacing goes on behind it.
pub proof fn lemma_replace_first(
    text: Seq<char>,
    before: Seq<char>,
    pattern: Seq<char>,
    after: Seq<char>,
    with: Seq<char>,
)
    requires
        pattern.len() > 0,
        text == before + pattern + after,
        forall|at: int| 0 <= at < before.len() ==> !occurs_at(pattern, text, at),
    ensures
        replace_all(text, pattern, with) == before + with + replace_all(after, pattern, with),
    decreases before.len(),
{
    let tail = replace_all(after, pattern, with);
    if before.len() == 0 {
        assert(pattern.is_prefix_of(text)) by {
            assert(pattern =~= text.subrange(0, pattern.len() as int));
        }
        assert(text.skip(pattern.len() as int) == after) by {
            assert(text.skip(pattern.len() as int) =~= after);
        }
        assert(replace_all(text, pattern, with) == with + tail);
        assert(before + with + tail =~= with + tail);
    } else {
        let rest = text.skip(1);
        let shorter = before.skip(1);
        assert(!pattern.is_prefix_of(text)) by {
            if pattern.is_prefix_of(text) {
                assert(occurs_at(pattern, text, 0));
            }
        }
        assert(rest == shorter + pattern + after) by {
            assert(rest =~= shorter + pattern + after);
        }
        assert forall|at: int| 0 <= at < shorter.len() implies !occurs_at(pattern, rest, at) by {
            if occurs_at(pattern, rest, at) {
                lemma_occurrence_behind_first(pattern, text, at);
            }
        }
        lemma_replace_first(rest, shorter, pattern, after, with);
        assert(replace_all(text, pattern, with) == seq![text[0]] + (shorter + with + tail));
        assert(text[0] == before[0]);
        assert(seq![before[0]] + (shorter + with + tail) =~= before + with + tail);
    }
}

} // verus!
