//! Splitting a raw document into its metadata block and its content body.
//!
//! A document may begin, after leading whitespace, with a line of three plus
//! signs, a metadata body, a closing line of three plus signs, and one or
//! more newlines; the rest is the content. The closing delimiter is the last
//! plus-sign triple followed by a newline, so plus-sign triples inside the
//! metadata body do not close it early. A document with no such block is all
//! content.

use vstd::prelude::*;

use crate::text;

verus! {

/// First non-whitespace position at or after `i`.
pub open spec fn skip_ws(s: Seq<char>, i: int) -> int
    decreases s.len() - i,
        when 0 <= i <= s.len()
{
    if i == s.len() {
        i
    } else if text::is_ws_char(s[i]) {
        skip_ws(s, i + 1)
    } else {
        i
    }
}

/// Three plus signs at `i`.
pub open spec fn plus3_at(s: Seq<char>, i: int) -> bool {
    &&& 0 <= i
    &&& i + 3 <= s.len()
    &&& s[i] == '+'
    &&& s[i + 1] == '+'
    &&& s[i + 2] == '+'
}

/// Length of the newline unit at `i`: a bare newline, a carriage return and
/// newline pair, or nothing.
pub open spec fn nl_len_at(s: Seq<char>, i: int) -> int {
    if 0 <= i < s.len() && s[i] == '\n' {
        1
    } else if 0 <= i && i + 2 <= s.len() && s[i] == '\r' && s[i + 1] == '\n' {
        2
    } else {
        0
    }
}

/// A closing delimiter at `i`: three plus signs followed by a newline unit.
pub open spec fn closing_at(s: Seq<char>, i: int) -> bool {
    plus3_at(s, i) && nl_len_at(s, i + 3) > 0
}

/// The last closing delimiter in `[lo, hi)`.
pub open spec fn last_closing(s: Seq<char>, lo: int, hi: int) -> Option<int>
    decreases hi - lo,
        when lo <= hi
{
    if hi <= lo {
        None
    } else if closing_at(s, hi - 1) {
        Some(hi - 1)
    } else {
        last_closing(s, lo, hi - 1)
    }
}

/// Position after the maximal run of newline units starting at `i`.
pub open spec fn skip_nls(s: Seq<char>, i: int) -> int
    decreases s.len() - i,
        when 0 <= i <= s.len()
{
    let k = nl_len_at(s, i);
    if k == 0 {
        i
    } else {
        skip_nls(s, i + k)
    }
}

/// How a document splits: the metadata body and the content, or nothing
/// when no well-formed metadata block opens the document.
pub open spec fn spec_split(s: Seq<char>) -> Option<(Seq<char>, Seq<char>)> {
    let w = skip_ws(s, 0);
    if plus3_at(s, w) {
        match last_closing(s, w + 3, s.len() as int) {
            Some(c) => {
                let e = skip_nls(s, c + 3);
                Some((s.subrange(w + 3, c), s.subrange(e, s.len() as int)))
            },
            None => None,
        }
    } else {
        None
    }
}

/// When the last closing delimiter of `[lo, hi)` is known, so is the
/// search's answer.
pub proof fn lemma_last_closing_at(s: Seq<char>, lo: int, hi: int, x: int)
    requires
        lo <= x < hi,
        closing_at(s, x),
        forall|p: int| x < p < hi ==> !closing_at(s, p),
    ensures
        last_closing(s, lo, hi) == Some(x),
    decreases hi,
{
    if hi - 1 > x {
        assert(!closing_at(s, hi - 1));
        lemma_last_closing_at(s, lo, hi - 1, x);
    }
}

/// Whether a closing delimiter stands at `i`.
fn closing_at_exec(v: &[char], i: usize) -> (r: bool)
    requires
        i <= v@.len(),
    ensures
        r == closing_at(v@, i as int),
{
    let n = v.len();
    if n - i < 3 {
        return false;
    }
    if !(v[i] == '+' && v[i + 1] == '+' && v[i + 2] == '+') {
        return false;
    }
    if n - i > 3 && v[i + 3] == '\n' {
        true
    } else if n - i >= 5 && v[i + 3] == '\r' && v[i + 4] == '\n' {
        true
    } else {
        false
    }
}

/// Split a document into metadata body and content, as `spec_split` says.
pub fn split_document(v: &[char]) -> (r: Option<(Vec<char>, Vec<char>)>)
    ensures
        match r {
            Some(parts) => spec_split(v@) == Some((parts.0@, parts.1@)),
            None => spec_split(v@) is None,
        },
{
    let n = v.len();
    // leading whitespace
    let mut w: usize = 0;
    while w < n && text::is_ws(v[w])
        invariant
            0 <= w <= n,
            n == v@.len(),
            skip_ws(v@, 0) == skip_ws(v@, w as int),
        decreases n - w,
    {
        w = w + 1;
    }
    assert(skip_ws(v@, 0) == w as int);
    // opening delimiter
    if !(n - w >= 3 && v[w] == '+' && v[w + 1] == '+' && v[w + 2] == '+') {
        assert(!plus3_at(v@, w as int));
        return None;
    }
    assert(plus3_at(v@, w as int));
    // last closing delimiter
    let lo = w + 3;
    let close: usize = match find_last_closing(v, lo, n) {
        Some(c) => c,
        None => {
            return None;
        },
    };
    assert(last_closing(v@, lo as int, n as int) == Some(close as int));
    // trailing newlines after the closing delimiter
    let mut e = close + 3;
    while nl_unit_len(v, e) > 0
        invariant
            close + 3 <= e <= n,
            n == v@.len(),
            skip_nls(v@, close + 3) == skip_nls(v@, e as int),
        decreases n - e,
    {
        let k = nl_unit_len(v, e);
        e = e + k;
    }
    assert(skip_nls(v@, close + 3) == e as int);
    let mut body: Vec<char> = Vec::new();
    body.extend_from_slice(vstd::slice::slice_subrange(v, w + 3, close));
    assert(body@ =~= v@.subrange(w + 3, close as int));
    let mut contents: Vec<char> = Vec::new();
    contents.extend_from_slice(vstd::slice::slice_subrange(v, e, n));
    assert(contents@ =~= v@.subrange(e as int, v@.len() as int));
    Some((body, contents))
}

/// The last closing delimiter in `[lo, hi0)`, scanning from the top.
fn find_last_closing(v: &[char], lo: usize, hi0: usize) -> (r: Option<usize>)
    requires
        lo <= hi0 <= v@.len(),
    ensures
        match r {
            Some(c) => lo <= c && c + 4 <= v@.len() && last_closing(v@, lo as int, hi0 as int)
                == Some(c as int),
            None => last_closing(v@, lo as int, hi0 as int) is None,
        },
{
    let mut hi = hi0;
    while hi > lo
        invariant
            lo <= hi <= hi0 <= v@.len(),
            last_closing(v@, lo as int, hi0 as int) == last_closing(v@, lo as int, hi as int),
        decreases hi,
    {
        if closing_at_exec(v, hi - 1) {
            return Some(hi - 1);
        }
        hi = hi - 1;
    }
    None
}

/// Length of the newline unit at `i`, zero when none stands there.
fn nl_unit_len(v: &[char], i: usize) -> (r: usize)
    requires
        i <= v@.len(),
    ensures
        r == nl_len_at(v@, i as int),
        i + r <= v@.len(),
{
    let n = v.len();
    if i < n && v[i] == '\n' {
        1
    } else if n - i >= 2 && v[i] == '\r' && v[i + 1] == '\n' {
        2
    } else {
        0
    }
}

} // verus!
