//! Executable string operations: comparing, finding, splitting into lines
//! and replacing.
//!
//! They work on the bytes of their arguments, and their contracts are stated
//! over characters.

use vstd::prelude::*;
use vstd::string::StringExecFns;
use vstd::utf8::{
    encode_utf8,
    encode_utf8_decode_utf8,
    encode_utf8_valid_utf8,
    is_char_boundary,
    is_char_boundary_iff_not_is_continuation_byte,
    is_char_boundary_start_end_of_seq,
};
use crate::encoding::{
    byte_offset,
    bytes_occur_at,
    lemma_boundary_is_offset,
    lemma_byte_offset_grows,
    lemma_encode_ascii,
    lemma_encode_concat,
    lemma_encode_injective,
    lemma_encode_len,
    lemma_encode_split,
    lemma_first_boundary,
    lemma_occurrence_from_bytes,
    lemma_occurrence_to_bytes,
    lemma_offset_is_boundary,
};
use crate::text::{
    is_substring,
    lemma_char_occurs,
    lemma_empty_is_substring,
    lemma_lines_of_first,
    lemma_lines_of_last,
    lemma_replace_first,
    lemma_replace_without_occurrence,
    lines_of,
    occurs_at,
    replace_all,
    texts_of,
    without_trailing_cr,
};

verus! {

/// Whether two string slices hold the same characters.
pub fn same_text(left: &str, right: &str) -> (same: bool)
    ensures
        same == (left@ == right@),
{
    let a = left.as_bytes();
    let b = right.as_bytes();
    proof {
        encode_utf8_decode_utf8(left@);
        encode_utf8_decode_utf8(right@);
        assert((left@ == right@) <==> (a@ == b@));
    }
    if a.len() != b.len() {
        return false;
    }
    let mut i: usize = 0;
    while i < a.len()
        invariant
            i <= a@.len(),
            a@.len() == b@.len(),
            (left@ == right@) <==> (a@ == b@),
            forall|k: int| 0 <= k < i ==> a@[k] == b@[k],
        decreases a@.len() - i,
    {
        if a[i] != b[i] {
            return false;
        }
        i += 1;
    }
    assert(a@ =~= b@);
    true
}

/// The first place at which `needle` stands in `hay`, if there is one.
pub fn find_bytes(hay: &[u8], needle: &[u8]) -> (found: Option<usize>)
    ensures
        match found {
            Some(at) => bytes_occur_at(needle@, hay@, at as int) && forall|k: int|
                0 <= k < at ==> !bytes_occur_at(needle@, hay@, k),
            None => forall|k: int| !bytes_occur_at(needle@, hay@, k),
        },
{
    let n: usize = hay.len();
    let m: usize = needle.len();
    if m > n {
        return None;
    }
    let mut at: usize = 0;
    while at <= n - m
        invariant
            n == hay@.len(),
            m == needle@.len(),
            m <= n,
            at <= n - m + 1,
            forall|k: int| 0 <= k < at ==> !bytes_occur_at(needle@, hay@, k),
        decreases n - m + 1 - at,
    {
        let mut i: usize = 0;
        while i < m && hay[at + i] == needle[i]
            invariant
                n == hay@.len(),
                m == needle@.len(),
                at <= n - m,
                i <= m,
                forall|j: int| 0 <= j < i ==> hay@[at + j] == needle@[j],
            decreases m - i,
        {
            i += 1;
        }
        if i == m {
            assert(hay@.subrange(at as int, at + m) =~= needle@);
            return Some(at);
        }
        assert(!bytes_occur_at(needle@, hay@, at as int)) by {
            if bytes_occur_at(needle@, hay@, at as int) {
                assert(hay@.subrange(at as int, at + m)[i as int] == needle@[i as int]);
            }
        }
        at += 1;
    }
    None
}

/// Whether `needle` occurs in `hay`. The empty needle occurs in every text.
pub fn contains(hay: &str, needle: &str) -> (found: bool)
    ensures
        found == is_substring(needle@, hay@),
{
    proof {
        lemma_encode_len(needle@);
    }
    if needle.as_bytes().len() == 0 {
        proof {
            assert(needle@ =~= Seq::<char>::empty());
            lemma_empty_is_substring(hay@);
        }
        return true;
    }
    let found = find_bytes(hay.as_bytes(), needle.as_bytes());
    proof {
        match found {
            Some(at) => {
                lemma_occurrence_from_bytes(needle@, hay@, at as int);
            },
            None => {
                if is_substring(needle@, hay@) {
                    let count = choose|count: int| occurs_at(needle@, hay@, count);
                    lemma_occurrence_to_bytes(needle@, hay@, count);
                }
            },
        }
    }
    found.is_some()
}

/// Splits `text` around the first occurrence of `pattern`: what stands
/// before it and what stands behind it. Without an occurrence there is
/// nothing to split. The empty pattern occurs at the very start.
pub fn split_first<'a>(text: &'a str, pattern: &str) -> (parts: Option<(&'a str, &'a str)>)
    ensures
        match parts {
            Some((before, after)) => {
                &&& text@ == before@ + pattern@ + after@
                &&& forall|at: int| 0 <= at < before@.len() ==> !occurs_at(pattern@, text@, at)
            },
            None => !is_substring(pattern@, text@),
        },
{
    let width: usize = pattern.as_bytes().len();
    proof {
        lemma_encode_len(pattern@);
    }
    if width == 0 {
        proof {
            lemma_offset_is_boundary(text@, 0);
            lemma_encode_split(text@, 0);
        }
        let (before, after) = text.split_at(0);
        proof {
            lemma_encode_injective(before@, text@.take(0));
            lemma_encode_injective(after@, text@.skip(0));
            assert(text@ =~= before@ + pattern@ + after@);
        }
        return Some((before, after));
    }
    match find_bytes(text.as_bytes(), pattern.as_bytes()) {
        Some(at) => {
            let ghost count = lemma_occurrence_from_bytes(pattern@, text@, at as int);
            proof {
                lemma_offset_is_boundary(text@, count);
                lemma_encode_split(text@, count);
            }
            let (before, tail) = text.split_at(at);
            proof {
                lemma_encode_injective(before@, text@.take(count));
                lemma_encode_injective(tail@, text@.skip(count));
                assert(tail@.take(pattern@.len() as int) =~= pattern@);
                lemma_offset_is_boundary(tail@, pattern@.len() as int);
                lemma_encode_split(tail@, pattern@.len() as int);
            }
            let (_, after) = tail.split_at(width);
            proof {
                lemma_encode_injective(after@, tail@.skip(pattern@.len() as int));
                assert(text@ =~= before@ + pattern@ + after@);
                assert forall|c: int| 0 <= c < before@.len() implies !occurs_at(
                    pattern@,
                    text@,
                    c,
                ) by {
                    if occurs_at(pattern@, text@, c) {
                        lemma_occurrence_to_bytes(pattern@, text@, c);
                        lemma_byte_offset_grows(text@, c, count);
                    }
                }
            }
            Some((before, after))
        },
        None => {
            proof {
                if is_substring(pattern@, text@) {
                    let count = choose|count: int| occurs_at(pattern@, text@, count);
                    lemma_occurrence_to_bytes(pattern@, text@, count);
                }
            }
            None
        },
    }
}

/// Splits a text into its first character and the rest, if it has a first
/// character.
pub fn split_char<'a>(text: &'a str) -> (parts: Option<(&'a str, &'a str)>)
    ensures
        match parts {
            Some((first, rest)) => text@.len() > 0 && first@ == seq![text@[0]] && rest@
                == text@.skip(1),
            None => text@.len() == 0,
        },
{
    if text.is_empty() {
        return None;
    }
    proof {
        encode_utf8_valid_utf8(text@);
        is_char_boundary_start_end_of_seq(encode_utf8(text@));
        lemma_encode_len(text@);
    }
    let n: usize = text.as_bytes().len();
    let mut at: usize = 1;
    while !text.is_char_boundary(at)
        invariant
            1 <= at <= n,
            n == encode_utf8(text@).len(),
            is_char_boundary(encode_utf8(text@), n as int),
            forall|i: int| 0 < i < at ==> !is_char_boundary(encode_utf8(text@), i),
        decreases n - at,
    {
        at += 1;
    }
    proof {
        lemma_first_boundary(text@, at as int);
        lemma_encode_split(text@, 1);
    }
    let (first, rest) = text.split_at(at);
    proof {
        lemma_encode_injective(first@, text@.take(1));
        lemma_encode_injective(rest@, text@.skip(1));
        assert(text@.take(1) =~= seq![text@[0]]);
    }
    Some((first, rest))
}

/// A line without the carriage return at its end, if it has one.
pub fn strip_cr<'a>(line: &'a str) -> (stripped: &'a str)
    ensures
        stripped@ == without_trailing_cr(line@),
{
    let bytes = line.as_bytes();
    let n: usize = bytes.len();
    proof {
        lemma_encode_len(line@);
        lemma_encode_ascii('\r');
        encode_utf8_valid_utf8(line@);
    }
    if n > 0 && bytes[n - 1] == 0x0d {
        proof {
            is_char_boundary_iff_not_is_continuation_byte(bytes@, n - 1);
            let count = lemma_boundary_is_offset(line@, n - 1);
            lemma_encode_split(line@, count);
            assert(bytes@.subrange(n - 1, n as int) =~= seq![0x0du8]);
            lemma_encode_injective(line@.skip(count), seq!['\r']);
            assert(line@.skip(count)[0] == '\r');
            assert(line@.take(count) =~= line@.drop_last());
        }
        let (front, _) = line.split_at(n - 1);
        proof {
            lemma_encode_injective(front@, line@.drop_last());
        }
        front
    } else {
        proof {
            if line@.len() > 0 && line@.last() == '\r' {
                assert(line@ =~= line@.drop_last() + seq!['\r']);
                lemma_encode_concat(line@.drop_last(), seq!['\r']);
                assert(bytes@[n - 1] == 0x0du8);
            }
        }
        line
    }
}

/// The lines of `text`, in order and without their terminators, each a
/// slice of `text`.
pub fn lines<'a>(text: &'a str) -> (lines: Vec<&'a str>)
    ensures
        texts_of(lines@) == lines_of(text@),
{
    let mut lines: Vec<&'a str> = Vec::new();
    let mut rest = text;
    proof {
        reveal_strlit("\n");
        assert("\n"@ =~= seq!['\n']);
        assert(texts_of(lines@) + lines_of(rest@) =~= lines_of(text@));
    }
    while !rest.is_empty()
        invariant
            "\n"@ == seq!['\n'],
            lines_of(text@) == texts_of(lines@) + lines_of(rest@),
        decreases rest@.len(),
    {
        let ghost so_far = texts_of(lines@);
        match split_first(rest, "\n") {
            Some((line, after)) => {
                proof {
                    assert(!line@.contains('\n')) by {
                        if line@.contains('\n') {
                            let i = choose|i: int| 0 <= i < line@.len() && line@[i] == '\n';
                            lemma_char_occurs(rest@, i);
                        }
                    }
                    lemma_lines_of_first(rest@, line@, after@);
                }
                let line = strip_cr(line);
                proof {
                    assert(texts_of(lines@.push(line)) =~= so_far.push(line@));
                    assert(so_far + (seq![line@] + lines_of(after@)) =~= so_far.push(line@)
                        + lines_of(after@));
                }
                lines.push(line);
                rest = after;
            },
            None => {
                proof {
                    assert(!rest@.contains('\n')) by {
                        if rest@.contains('\n') {
                            let i = choose|i: int| 0 <= i < rest@.len() && rest@[i] == '\n';
                            lemma_char_occurs(rest@, i);
                        }
                    }
                    lemma_lines_of_last(rest@);
                    assert(texts_of(lines@.push(rest)) =~= so_far.push(rest@));
                    assert(so_far + seq![rest@] =~= so_far.push(rest@));
                }
                lines.push(rest);
                return lines;
            },
        }
    }
    proof {
        assert(texts_of(lines@) + lines_of(rest@) =~= texts_of(lines@));
    }
    lines
}

/// `text` with every occurrence of `pattern` replaced by `with`, as a new
/// string. Occurrences are taken from the left and do not overlap; the empty
/// pattern occurs before every character and at the end.
pub fn replace(text: &str, pattern: &str, with: &str) -> (replaced: String)
    ensures
        replaced@ == replace_all(text@, pattern@, with@),
{
    let mut out = String::new();
    let mut rest = text;
    proof {
        lemma_encode_len(pattern@);
        assert(out@ + replace_all(rest@, pattern@, with@) =~= replace_all(
            text@,
            pattern@,
            with@,
        ));
    }
    if pattern.as_bytes().len() == 0 {
        loop
            invariant
                pattern@.len() == 0,
                replace_all(text@, pattern@, with@) == out@ + replace_all(
                    rest@,
                    pattern@,
                    with@,
                ),
            decreases rest@.len(),
        {
            let ghost done = out@;
            out.append(with);
            match split_char(rest) {
                Some((first, after)) => {
                    proof {
                        assert(done + (with@ + seq![rest@[0]] + replace_all(
                            after@,
                            pattern@,
                            with@,
                        )) =~= done + with@ + first@ + replace_all(after@, pattern@, with@));
                    }
                    out.append(first);
                    rest = after;
                },
                None => {
                    return out;
                },
            }
        }
    } else {
        loop
            invariant
                pattern@.len() > 0,
                replace_all(text@, pattern@, with@) == out@ + replace_all(
                    rest@,
                    pattern@,
                    with@,
                ),
            decreases rest@.len(),
        {
            let ghost done = out@;
            match split_first(rest, pattern) {
                Some((before, after)) => {
                    proof {
                        lemma_replace_first(rest@, before@, pattern@, after@, with@);
                        assert(done + (before@ + with@ + replace_all(after@, pattern@, with@))
                            =~= done + before@ + with@ + replace_all(after@, pattern@, with@));
                    }
                    out.append(before);
                    out.append(with);
                    rest = after;
                },
                None => {
                    proof {
                        lemma_replace_without_occurrence(rest@, pattern@, with@);
                    }
                    out.append(rest);
                    return out;
                },
            }
        }
    }
}

} // verus!
