//! The location resolver: maps a character offset and length within a
//! source unit's raw text to a 1-based line number and the literal
//! snippet of that range.

use vstd::prelude::*;

verus! {

/// The number of line breaks among the first `n` characters of `text`.
pub open spec fn newlines_before(text: Seq<char>, n: int) -> int
    decreases n,
{
    if n <= 0 {
        0
    } else {
        newlines_before(text, n - 1) + if text[n - 1] == '\n' {
            1int
        } else {
            0int
        }
    }
}

/// What resolution yields: the 1-based line of `offset` and the snippet
/// of `length` characters from it, or nothing when the range leaves the
/// text's bounds (location unknown, not an error).
pub open spec fn spec_resolve(text: Seq<char>, offset: int, length: int) -> Option<(int, Seq<char>)> {
    if 0 <= offset && 0 <= length && offset + length <= text.len() && 1 + newlines_before(
        text,
        offset,
    ) <= usize::MAX {
        Some((1 + newlines_before(text, offset), text.subrange(offset, offset + length)))
    } else {
        None
    }
}

proof fn lemma_newlines_bound(text: Seq<char>, n: int)
    requires
        0 <= n <= text.len(),
    ensures
        0 <= newlines_before(text, n) <= n,
    decreases n,
{
    if n > 0 {
        lemma_newlines_bound(text, n - 1);
    }
}

/// Resolves a character range of `source` to its 1-based line number and
/// literal snippet; `None` when the range leaves the text's bounds.
#[verifier::loop_isolation(false)]
pub fn resolve_location(source: &str, offset: usize, length: usize) -> (r: Option<(usize, String)>)
    ensures
        match r {
            Some(t) => spec_resolve(source@, offset as int, length as int) == Some(
                (t.0 as int, t.1@),
            ),
            None => spec_resolve(source@, offset as int, length as int) is None,
        },
{
    let n = source.unicode_len();
    if offset > n || length > n - offset {
        return None;
    }
    let mut count: usize = 0;
    let mut i: usize = 0;
    proof {
        lemma_newlines_bound(source@, offset as int);
    }
    while i < offset
        invariant
            0 <= i <= offset,
            count == newlines_before(source@, i as int),
            count <= i,
        decreases offset - i,
    {
        proof {
            lemma_newlines_bound(source@, i as int);
        }
        if source.get_char(i) == '\n' {
            count = count + 1;
        }
        i = i + 1;
    }
    if count == usize::MAX {
        return None;
    }
    let snippet = source.substring_char(offset, offset + length).to_owned();
    Some((1 + count, snippet))
}

} // verus!
