//! Matching one line against a query.

use vstd::prelude::*;
use crate::lowercase::{lowercase_of, to_lowercase};
use crate::strings::contains;
use crate::text::{is_substring, lemma_empty_is_substring};

verus! {

/// Whether `line` matches `query`: it contains the query as written or, when
/// case is ignored, its lowercase form contains the lowercase form of the
/// query.
pub open spec fn line_matches(query: Seq<char>, line: Seq<char>, ignore_case: bool) -> bool {
    if ignore_case {
        is_substring(lowercase_of(query), lowercase_of(line))
    } else {
        is_substring(query, line)
    }
}

/// `line_matches` for a fixed query, as a predicate on lines.
pub open spec fn matcher(query: Seq<char>, ignore_case: bool) -> spec_fn(Seq<char>) -> bool {
    |line: Seq<char>| line_matches(query, line, ignore_case)
}

/// Tests one line against the query.
///
/// Case-sensitively, the line matches if it contains the query character for
/// character. With `ignore_case`, both are lowercased first. The empty query
/// matches every line.
pub fn matches(query: &str, line: &str, ignore_case: bool) -> (hit: bool)
    ensures
        hit == line_matches(query@, line@, ignore_case),
        query@.len() == 0 ==> hit,
{
    if ignore_case {
        let lowered_query = to_lowercase(query);
        let lowered_line = to_lowercase(line);
        proof {
            if query@.len() == 0 {
                assert(lowered_query@ =~= Seq::<char>::empty());
                lemma_empty_is_substring(lowered_line@);
            }
        }
        contains(lowered_line.as_str(), lowered_query.as_str())
    } else {
        proof {
            if query@.len() == 0 {
                assert(query@ =~= Seq::<char>::empty());
                lemma_empty_is_substring(line@);
            }
        }
        contains(line, query)
    }
}

} // verus!
