//! Lines of the wire format: every header ends with a carriage return followed
//! by a line feed, and the first such pair after a position ends the line.

use vstd::prelude::*;
use crate::ascii::{CR, LF};

verus! {

/// A carriage return and a line feed stand at positions `i` and `i + 1` of `s`.
pub open spec fn crlf_at(s: Seq<u8>, i: int) -> bool {
    0 <= i && i + 1 < s.len() && s[i] == CR && s[i + 1] == LF
}

/// `e` is the position of the first line terminator of `s` at or after `from`.
pub open spec fn first_crlf(s: Seq<u8>, from: int, e: int) -> bool {
    &&& from <= e
    &&& crlf_at(s, e)
    &&& forall|j: int| from <= j < e ==> !crlf_at(s, j)
}

/// No line terminator starts at or after `from`.
pub open spec fn no_crlf_from(s: Seq<u8>, from: int) -> bool {
    forall|j: int| from <= j ==> !crlf_at(s, j)
}

/// The two bytes that end a line.
pub open spec fn crlf() -> Seq<u8> {
    seq![CR, LF]
}

/// Position of the first line terminator at or after `from`, if there is one.
pub open spec fn line_end(s: Seq<u8>, from: int) -> Option<int>
    decreases s.len() - from,
{
    if from < 0 || from + 1 >= s.len() {
        None
    } else if s[from] == CR && s[from + 1] == LF {
        Some(from)
    } else {
        line_end(s, from + 1)
    }
}

/// What `line_end` returns is the first terminator, and `None` means there is none.
pub proof fn lemma_line_end_is_first(s: Seq<u8>, from: int)
    requires
        0 <= from,
    ensures
        match line_end(s, from) {
            Some(e) => first_crlf(s, from, e),
            None => no_crlf_from(s, from),
        },
    decreases s.len() - from,
{
    if from + 1 >= s.len() {
    } else if s[from] == CR && s[from + 1] == LF {
    } else {
        lemma_line_end_is_first(s, from + 1);
        assert(!crlf_at(s, from));
    }
}

/// The first terminator is what `line_end` returns.
pub proof fn lemma_line_end_found(s: Seq<u8>, from: int, e: int)
    requires
        0 <= from,
        first_crlf(s, from, e),
    ensures
        line_end(s, from) == Some(e),
{
    lemma_line_end_is_first(s, from);
    match line_end(s, from) {
        Some(x) => {
            if x < e {
                assert(!crlf_at(s, x));
            } else if e < x {
                assert(!crlf_at(s, e));
            }
        },
        None => {
            assert(!crlf_at(s, e));
        },
    }
}

/// Without a terminator at or after `from`, `line_end` finds none.
pub proof fn lemma_line_end_none(s: Seq<u8>, from: int)
    requires
        0 <= from,
        no_crlf_from(s, from),
    ensures
        line_end(s, from) is None,
{
    lemma_line_end_is_first(s, from);
    if let Some(x) = line_end(s, from) {
        assert(!crlf_at(s, x));
    }
}

/// A line found in `s` is found at the same place in every sequence that
/// agrees with `s` up to the end of its terminator.
pub proof fn lemma_line_end_local(s: Seq<u8>, t: Seq<u8>, from: int, e: int)
    requires
        0 <= from,
        line_end(s, from) == Some(e),
        e + 2 <= s.len(),
        e + 2 <= t.len(),
        s.subrange(0, e + 2) == t.subrange(0, e + 2),
    ensures
        line_end(t, from) == Some(e),
{
    lemma_line_end_is_first(s, from);
    let a = s.subrange(0, e + 2);
    let b = t.subrange(0, e + 2);
    assert forall|j: int| 0 <= j < e + 2 implies #[trigger] s[j] == t[j] by {
        assert(s[j] == a[j]);
        assert(t[j] == b[j]);
    }
    assert(s[e] == t[e] && s[e + 1] == t[e + 1]);
    assert(crlf_at(t, e));
    assert forall|j: int| from <= j < e implies !crlf_at(t, j) by {
        assert(s[j] == t[j] && s[j + 1] == t[j + 1]);
        assert(!crlf_at(s, j));
    }
    lemma_line_end_found(t, from, e);
}

/// A prefix that stops before the end of the terminator holds no complete line.
pub proof fn lemma_line_end_cut(s: Seq<u8>, from: int, e: int, k: int)
    requires
        0 <= from,
        line_end(s, from) == Some(e),
        0 <= k < e + 2,
        k <= s.len(),
    ensures
        line_end(s.take(k), from) is None,
{
    lemma_line_end_is_first(s, from);
    let t = s.take(k);
    assert forall|j: int| from <= j implies !crlf_at(t, j) by {
        if crlf_at(t, j) {
            assert(crlf_at(s, j));
            assert(j < e);
        }
    }
    lemma_line_end_none(t, from);
}

/// A line of the rest of `s` behind `pos` is the line of `s` at the same bytes.
pub proof fn lemma_line_end_skip(s: Seq<u8>, pos: int, from: int)
    requires
        0 <= pos <= s.len(),
        0 <= from,
    ensures
        line_end(s.skip(pos), from) == match line_end(s, pos + from) {
            Some(e) => Some(e - pos),
            None => None,
        },
{
    let t = s.skip(pos);
    lemma_line_end_is_first(s, pos + from);
    assert forall|j: int| crlf_at(t, j) == (0 <= j && crlf_at(s, pos + j)) by {}
    match line_end(s, pos + from) {
        Some(e) => {
            assert(crlf_at(t, e - pos));
            assert forall|j: int| from <= j < e - pos implies !crlf_at(t, j) by {
                assert(!crlf_at(s, pos + j));
            }
            lemma_line_end_found(t, from, e - pos);
        },
        None => {
            assert forall|j: int| from <= j implies !crlf_at(t, j) by {
                assert(!crlf_at(s, pos + j));
            }
            lemma_line_end_none(t, from);
        },
    }
}

/// Finds the first line terminator of `buf` at or after `from`.
pub fn find_line_end(buf: &[u8], from: usize) -> (r: Option<usize>)
    ensures
        match r {
            Some(e) => line_end(buf@, from as int) == Some(e as int) && e + 2 <= buf@.len(),
            None => line_end(buf@, from as int) is None,
        },
{
    let n: usize = buf.len();
    let mut i: usize = from;
    while i < n && i + 1 < n
        invariant
            from <= i,
            n == buf@.len(),
            line_end(buf@, from as int) == line_end(buf@, i as int),
        decreases n - i,
    {
        if buf[i] == CR && buf[i + 1] == LF {
            return Some(i);
        }
        i = i + 1;
    }
    None
}

} // verus!
