//! Searching a whole text for the lines that match a query.

use vstd::prelude::*;
use crate::matcher::{line_matches, matcher};
use crate::lowercase::{lowercase_of, to_lowercase};
use crate::strings::{contains, lines};
use crate::text::{is_substring, lemma_empty_is_substring, lines_of, texts_of};

verus! {

/// The lines of `contents` that match `query`, in the order in which they
/// stand in `contents`.
pub open spec fn matching_lines(
    query: Seq<char>,
    contents: Seq<char>,
    ignore_case: bool,
) -> Seq<Seq<char>> {
    lines_of(contents).filter(matcher(query, ignore_case))
}

/// `picked` lists positions of `from`, strictly ascending, and `result` holds
/// the items of `from` at those positions.
pub open spec fn is_selection(
    picked: Seq<int>,
    from: Seq<Seq<char>>,
    result: Seq<Seq<char>>,
) -> bool {
    &&& picked.len() == result.len()
    &&& forall|k: int|
        0 <= k < picked.len() ==> 0 <= #[trigger] picked[k] < from.len() && result[k]
            == from[picked[k]]
    &&& forall|j: int, k: int| 0 <= j < k < picked.len() ==> picked[j] < picked[k]
}

/// Filtering by a predicate that holds of every item keeps the sequence.
proof fn lemma_filter_keeps_all(lines: Seq<Seq<char>>, pred: spec_fn(Seq<char>) -> bool)
    requires
        forall|i: int| 0 <= i < lines.len() ==> pred(#[trigger] lines[i]),
    ensures
        lines.filter(pred) == lines,
    decreases lines.len(),
{
    reveal(Seq::filter);
    if lines.len() > 0 {
        lemma_filter_keeps_all(lines.drop_last(), pred);
        assert(lines.drop_last().push(lines.last()) =~= lines);
    }
}

/// Filtering by `narrow` gives the same as filtering by `wide` first, where
/// every item that satisfies `narrow` satisfies `wide`.
proof fn lemma_filter_through(
    lines: Seq<Seq<char>>,
    narrow: spec_fn(Seq<char>) -> bool,
    wide: spec_fn(Seq<char>) -> bool,
)
    requires
        forall|i: int| 0 <= i < lines.len() && narrow(#[trigger] lines[i]) ==> wide(lines[i]),
    ensures
        lines.filter(narrow) == lines.filter(wide).filter(narrow),
    decreases lines.len(),
{
    reveal(Seq::filter);
    if lines.len() > 0 {
        let front = lines.drop_last();
        let last = lines.last();
        lemma_filter_through(front, narrow, wide);
        if wide(last) {
            front.filter(wide).lemma_filter_push(last, narrow);
        }
    }
}

/// A filtered sequence is a selection of the sequence it was taken from: it
/// holds the items at exactly the positions that satisfy the predicate, in
/// ascending order.
proof fn lemma_filter_selects(
    lines: Seq<Seq<char>>,
    pred: spec_fn(Seq<char>) -> bool,
) -> (picked: Seq<int>)
    ensures
        is_selection(picked, lines, lines.filter(pred)),
        forall|i: int| 0 <= i < lines.len() ==> (pred(#[trigger] lines[i]) <==> picked.contains(i)),
    decreases lines.len(),
{
    reveal(Seq::filter);
    if lines.len() == 0 {
        Seq::empty()
    } else {
        let front = lines.drop_last();
        let last_at = lines.len() - 1;
        let before = lemma_filter_selects(front, pred);
        let picked = if pred(lines.last()) {
            before.push(last_at)
        } else {
            before
        };
        assert forall|i: int| 0 <= i < lines.len() implies (pred(#[trigger] lines[i])
            <==> picked.contains(i)) by {
            if i < last_at {
                assert(lines[i] == front[i]);
                if before.contains(i) {
                    let k = choose|k: int| 0 <= k < before.len() && before[k] == i;
                    assert(picked[k] == i);
                }
            } else if pred(lines.last()) {
                assert(picked[picked.len() - 1] == i);
            }
        }
        picked
    }
}

/// A search returns exactly the lines that match the query, each as often
/// as it stands in the text and in the order of the text: the result is read
/// off the lines at strictly ascending positions, and a position is among
/// them if and only if its line matches. Case-sensitively, the lines that
/// match are those that contain the query as written.
pub proof fn lemma_search_selects_in_order(
    query: Seq<char>,
    contents: Seq<char>,
    ignore_case: bool,
) -> (picked: Seq<int>)
    ensures
        is_selection(
            picked,
            lines_of(contents),
            matching_lines(query, contents, ignore_case),
        ),
        forall|i: int|
            0 <= i < lines_of(contents).len() ==> (line_matches(
                query,
                #[trigger] lines_of(contents)[i],
                ignore_case,
            ) <==> picked.contains(i)),
{
    lemma_filter_selects(lines_of(contents), matcher(query, ignore_case))
}

/// A text without characters has no lines, so no search finds anything in
/// it.
pub proof fn lemma_empty_contents_match_nothing(query: Seq<char>, ignore_case: bool)
    ensures
        matching_lines(query, Seq::<char>::empty(), ignore_case) == Seq::<Seq<char>>::empty(),
{
    reveal(Seq::filter);
}

/// The empty query matches every line, so a case-sensitive search for it
/// returns all lines of the text, unchanged and in order.
pub proof fn lemma_empty_query_keeps_all_lines(contents: Seq<char>)
    ensures
        matching_lines(Seq::<char>::empty(), contents, false) == lines_of(contents),
{
    let lines = lines_of(contents);
    let pred = matcher(Seq::<char>::empty(), false);
    assert forall|i: int| 0 <= i < lines.len() implies pred(#[trigger] lines[i]) by {
        lemma_empty_is_substring(lines[i]);
    }
    lemma_filter_keeps_all(lines, pred);
}

/// Ignoring case finds every line that the case-sensitive search finds,
/// provided that lowercasing keeps the matches of this text: each line that
/// contains the query has a lowercase form that contains the lowercase form
/// of the query. The case-sensitive result is then the case-insensitive one
/// with the lines that do not contain the query as written left out.
pub proof fn lemma_ignoring_case_finds_no_less(query: Seq<char>, contents: Seq<char>)
    requires
        forall|i: int|
            0 <= i < lines_of(contents).len() && is_substring(
                query,
                #[trigger] lines_of(contents)[i],
            ) ==> is_substring(lowercase_of(query), lowercase_of(lines_of(contents)[i])),
    ensures
        matching_lines(query, contents, false) == matching_lines(query, contents, true).filter(
            matcher(query, false),
        ),
        forall|line: Seq<char>|
            matching_lines(query, contents, false).contains(line) ==> #[trigger] matching_lines(
                query,
                contents,
                true,
            ).contains(line),
{
    let lines = lines_of(contents);
    let exact = matcher(query, false);
    let folded = matcher(query, true);
    lemma_filter_through(lines, exact, folded);
    assert forall|line: Seq<char>|
        matching_lines(query, contents, false).contains(line) implies #[trigger] matching_lines(
        query,
        contents,
        true,
    ).contains(line) by {
        lines.filter(folded).lemma_filter_contains_rev(exact, line);
    }
}

/// Two searches with the same arguments return the same lines: the result is
/// a function of the query, the text and the case flag alone.
pub proof fn lemma_search_is_repeatable(
    query: Seq<char>,
    contents: Seq<char>,
    ignore_case: bool,
    first: Seq<&str>,
    second: Seq<&str>,
)
    requires
        texts_of(first) == matching_lines(query, contents, ignore_case),
        texts_of(second) == matching_lines(query, contents, ignore_case),
    ensures
        first.len() == second.len(),
        forall|i: int| 0 <= i < first.len() ==> (#[trigger] first[i])@ == second[i]@,
{
    assert(texts_of(first).len() == first.len());
    assert(texts_of(second).len() == second.len());
    assert forall|i: int| 0 <= i < first.len() implies (#[trigger] first[i])@ == second[i]@ by {
        assert(texts_of(first)[i] == first[i]@);
        assert(texts_of(second)[i] == second[i]@);
    }
}

/// Returns the lines of `contents` that contain `query`, in the order in
/// which they stand there. Each returned line is a slice of `contents`.
pub fn search<'a>(query: &str, contents: &'a str) -> (results: Vec<&'a str>)
    ensures
        texts_of(results@) == matching_lines(query@, contents@, false),
        query@.len() == 0 ==> texts_of(results@) == lines_of(contents@),
{
    let lines = lines(contents);
    let mut results: Vec<&'a str> = Vec::new();
    let mut i: usize = 0;
    while i < lines.len()
        invariant
            i <= lines.len(),
            texts_of(results@) == texts_of(lines@).take(i as int).filter(matcher(query@, false)),
        decreases lines.len() - i,
    {
        let line = lines[i];
        let ghost seen = texts_of(lines@).take(i as int);
        proof {
            assert(texts_of(lines@).take(i + 1) =~= seen.push(line@));
            seen.lemma_filter_push(line@, matcher(query@, false));
        }
        if contains(line, query) {
            proof {
                assert(texts_of(results@.push(line)) =~= texts_of(results@).push(line@));
            }
            results.push(line);
        }
        i += 1;
    }
    proof {
        assert(texts_of(lines@).take(i as int) =~= texts_of(lines@));
        if query@.len() == 0 {
            assert(query@ =~= Seq::<char>::empty());
            lemma_empty_query_keeps_all_lines(contents@);
        }
    }
    results
}

/// Returns the lines of `contents` whose lowercase form contains the
/// lowercase form of `query`, in the order in which they stand there. The
/// lines are returned as they are written, not lowercased.
pub fn search_case_insensitive<'a>(query: &str, contents: &'a str) -> (results: Vec<&'a str>)
    ensures
        texts_of(results@) == matching_lines(query@, contents@, true),
        query@.len() == 0 ==> texts_of(results@) == lines_of(contents@),
{
    let lowered = to_lowercase(query);
    let lines = lines(contents);
    let mut results: Vec<&'a str> = Vec::new();
    let mut i: usize = 0;
    while i < lines.len()
        invariant
            i <= lines.len(),
            lowered@ == lowercase_of(query@),
            texts_of(results@) == texts_of(lines@).take(i as int).filter(matcher(query@, true)),
        decreases lines.len() - i,
    {
        let line = lines[i];
        let ghost seen = texts_of(lines@).take(i as int);
        proof {
            assert(texts_of(lines@).take(i + 1) =~= seen.push(line@));
            seen.lemma_filter_push(line@, matcher(query@, true));
        }
        let lowered_line = to_lowercase(line);
        if contains(lowered_line.as_str(), lowered.as_str()) {
            proof {
                assert(texts_of(results@.push(line)) =~= texts_of(results@).push(line@));
            }
            results.push(line);
        }
        i += 1;
    }
    proof {
        assert(texts_of(lines@).take(i as int) =~= texts_of(lines@));
        if query@.len() == 0 {
            let all = lines_of(contents@);
            assert(lowered@ =~= Seq::<char>::empty());
            assert forall|k: int| 0 <= k < all.len() implies matcher(query@, true)(
                #[trigger] all[k],
            ) by {
                lemma_empty_is_substring(lowercase_of(all[k]));
            }
            lemma_filter_keeps_all(all, matcher(query@, true));
        }
    }
    results
}

} // verus!
