//! The include directive: a file path with an optional line range, and the
//! extraction of the selected lines from a file's contents.

use vstd::prelude::*;

use crate::error::Error;
use crate::line_range::{LineRange, find_char, find_char_from};
use crate::text;

verus! {

/// An include preprocessing directive, as written `path[:start[:end]]`.
#[derive(Debug, Clone, PartialEq)]
pub struct Include {
    pub path: String,
    pub line_range: LineRange,
}

/// `find_char_from` returns the first matching index, inside the bounds.
pub proof fn lemma_find_char_from(s: Seq<char>, c: char, i: int)
    requires
        0 <= i <= s.len(),
    ensures
        match find_char_from(s, c, i) {
            Some(j) => i <= j < s.len() && s[j] == c && forall|k: int| i <= k < j ==> s[k] != c,
            None => forall|k: int| i <= k < s.len() ==> s[k] != c,
        },
    decreases s.len() - i,
{
    if i < s.len() && s[i] != c {
        lemma_find_char_from(s, c, i + 1);
    }
}

/// A line with one trailing carriage return removed, as happens to every
/// line that a newline terminates.
pub open spec fn strip_cr(l: Seq<char>) -> Seq<char> {
    if l.len() > 0 && l.last() == '\r' {
        l.drop_last()
    } else {
        l
    }
}

/// The lines of `s` starting at position `i`: split at each newline,
/// stripping one carriage return before it; a final unterminated piece is
/// kept as it stands, and a trailing newline adds no empty line.
pub open spec fn lines_from(s: Seq<char>, i: int) -> Seq<Seq<char>>
    decreases s.len() - i,
        when 0 <= i <= s.len()
{
    if i == s.len() {
        Seq::empty()
    } else {
        match find_char_from(s, '\n', i) {
            Some(j) => {
                if i <= j < s.len() {
                    seq![strip_cr(s.subrange(i, j))] + lines_from(s, j + 1)
                } else {
                    Seq::empty()  // never reached: a found index is in bounds
                }
            },
            None => seq![s.subrange(i, s.len() as int)],
        }
    }
}

/// The lines of a file's contents.
pub open spec fn spec_lines(s: Seq<char>) -> Seq<Seq<char>> {
    lines_from(s, 0)
}

/// Lines joined with single newlines, no trailing newline added.
pub open spec fn join_nl(ls: Seq<Seq<char>>) -> Seq<char>
    decreases ls.len(),
{
    if ls.len() == 0 {
        Seq::empty()
    } else if ls.len() == 1 {
        ls[0]
    } else {
        ls[0] + seq!['\n'] + join_nl(ls.drop_first())
    }
}

/// Joining one more line on the right appends a newline separator first,
/// unless nothing was joined yet.
pub proof fn lemma_join_nl_push(ls: Seq<Seq<char>>, l: Seq<char>)
    ensures
        join_nl(ls.push(l)) == if ls.len() == 0 {
            l
        } else {
            join_nl(ls) + seq!['\n'] + l
        },
    decreases ls.len(),
{
    if ls.len() == 0 {
        assert(ls.push(l) =~= seq![l]);
        assert(join_nl(seq![l]) == l);
    } else {
        assert(ls.push(l).drop_first() =~= ls.drop_first().push(l));
        lemma_join_nl_push(ls.drop_first(), l);
        if ls.len() == 1 {
            assert(ls.drop_first().len() == 0);
            assert(join_nl(ls.push(l)) == ls[0] + seq!['\n'] + l);
            assert(join_nl(ls) == ls[0]);
        } else {
            assert(join_nl(ls.push(l)) == ls[0] + seq!['\n'] + join_nl(ls.drop_first().push(l)));
            assert(join_nl(ls.drop_first().push(l)) == join_nl(ls.drop_first()) + seq!['\n'] + l);
            assert(join_nl(ls) + seq!['\n'] + l == (ls[0] + seq!['\n'] + join_nl(ls.drop_first()))
                + seq!['\n'] + l);
            assert(join_nl(ls.push(l)) =~= join_nl(ls) + seq!['\n'] + l);
        }
    }
}

/// Split contents into lines, as `spec_lines` describes.
pub fn split_lines(v: &[char]) -> (r: Vec<Vec<char>>)
    ensures
        r@.map_values(|l: Vec<char>| l@) =~= spec_lines(v@),
{
    let n = v.len();
    let mut out: Vec<Vec<char>> = Vec::new();
    let mut start: usize = 0;
    loop
        invariant
            n == v@.len(),
            0 <= start <= n,
            spec_lines(v@) =~= out@.map_values(|l: Vec<char>| l@) + lines_from(v@, start as int),
        decreases v@.len() - start,
    {
        proof {
            lemma_find_char_from(v@, '\n', start as int);
        }
        match find_char(v, '\n', start) {
            Some(j) => {
                let mut chunk: Vec<char> = Vec::new();
                chunk.extend_from_slice(vstd::slice::slice_subrange(v, start, j));
                if chunk.len() > 0 && chunk[chunk.len() - 1] == '\r' {
                    chunk.pop();
                }
                assert(chunk@ =~= strip_cr(v@.subrange(start as int, j as int)));
                out.push(chunk);
                proof {
                    assert(out@.map_values(|l: Vec<char>| l@) =~= out@.drop_last().map_values(
                        |l: Vec<char>| l@,
                    ).push(strip_cr(v@.subrange(start as int, j as int))));
                }
                start = j + 1;
            },
            None => {
                if start < n {
                    let mut chunk: Vec<char> = Vec::new();
                    chunk.extend_from_slice(vstd::slice::slice_subrange(v, start, n));
                    assert(chunk@ =~= v@.subrange(start as int, v@.len() as int));
                    out.push(chunk);
                    proof {
                        assert(out@.map_values(|l: Vec<char>| l@) =~= out@.drop_last().map_values(
                            |l: Vec<char>| l@,
                        ).push(v@.subrange(start as int, v@.len() as int)));
                    }
                }
                return out;
            },
        }
    }
}

/// What extraction selects: skip the 0-based start line, then take
/// `end - start` lines if an end is given, else everything, and join the
/// result with newlines.
pub open spec fn spec_extract(s: Seq<char>, lr: LineRange) -> Seq<char> {
    let ls = spec_lines(s);
    let start = lr.spec_start();
    let lo = if start <= ls.len() {
        start
    } else {
        ls.len() as int
    };
    let cnt = match lr.spec_end() {
        Some(e) => if e >= start {
            e - start
        } else {
            0
        },
        None => ls.len() - lo,
    };
    let hi = if lo + cnt <= ls.len() {
        lo + cnt
    } else {
        ls.len() as int
    };
    join_nl(ls.subrange(lo, hi))
}

/// Joining the lines of a text recovers the text: splitting at newlines
/// and joining with newlines is the identity on texts free of carriage
/// returns that do not end in a newline.
proof fn lemma_join_lines_id(s: Seq<char>, i: int)
    requires
        0 <= i <= s.len(),
        forall|k: int| 0 <= k < s.len() ==> s[k] != '\r',
        s.len() == 0 || s.last() != '\n',
    ensures
        join_nl(lines_from(s, i)) == s.subrange(i, s.len() as int),
    decreases s.len() - i,
{
    lemma_find_char_from(s, '\n', i);
    if i == s.len() {
        assert(s.subrange(i, s.len() as int) =~= Seq::<char>::empty());
    } else {
        match find_char_from(s, '\n', i) {
            Some(j) => {
                assert(s[j] == '\n');
                assert(j < s.len() - 1);
                lemma_join_lines_id(s, j + 1);
                let chunk = s.subrange(i, j);
                assert(strip_cr(chunk) == chunk) by {
                    if chunk.len() > 0 {
                        assert(chunk.last() == s[j - 1]);
                    }
                }
                let rest = lines_from(s, j + 1);
                assert(rest.len() > 0) by {
                    lemma_find_char_from(s, '\n', j + 1);
                    match find_char_from(s, '\n', j + 1) {
                        Some(q) => {
                            assert(j + 1 <= q < s.len());
                        },
                        None => {},
                    }
                }
                let ls = lines_from(s, i);
                assert(ls == seq![chunk] + rest);
                assert(ls.drop_first() =~= rest);
                assert(join_nl(ls) == chunk + seq!['\n'] + join_nl(rest));
                assert(chunk + seq!['\n'] + s.subrange(j + 1, s.len() as int) =~= s.subrange(
                    i,
                    s.len() as int,
                ));
            },
            None => {
                assert(lines_from(s, i) == seq![s.subrange(i, s.len() as int)]);
            },
        }
    }
}

/// Extracting the whole file returns it unchanged, for texts free of
/// carriage returns that do not end in a newline.
pub proof fn lemma_whole_file_extract(s: Seq<char>)
    requires
        forall|k: int| 0 <= k < s.len() ==> s[k] != '\r',
        s.len() == 0 || s.last() != '\n',
    ensures
        spec_extract(s, LineRange::RangeFull) == s,
{
    lemma_join_lines_id(s, 0);
    let ls = spec_lines(s);
    assert(ls.subrange(0, ls.len() as int) =~= ls);
    assert(s.subrange(0, s.len() as int) =~= s);
}

impl Include {
    /// Parse `path[:ranges]`: the text before the first colon is the path,
    /// everything after it is the line range.
    pub fn from_str(args: &str) -> (r: Result<Include, Error>)
        ensures
            ({
                let s = args@;
                let path = match find_char_from(s, ':', 0) {
                    Some(ci) => s.subrange(0, ci),
                    None => s,
                };
                let range_part = match find_char_from(s, ':', 0) {
                    Some(ci) => Some(s.subrange(ci + 1, s.len() as int)),
                    None => None,
                };
                match r {
                    Ok(inc) => {
                        &&& inc.path@ == path
                        &&& ({
                            let rs = if range_part is Some {
                                range_part->0
                            } else {
                                Seq::<char>::empty()
                            };
                            crate::line_range::spec_line_range(rs)
                                == crate::line_range::LineRangeParse::Parsed(inc.line_range)
                        })
                    },
                    Err(e) => {
                        let rs = if range_part is Some {
                            range_part->0
                        } else {
                            Seq::<char>::empty()
                        };
                        !(crate::line_range::spec_line_range(rs)
                            is Parsed)
                    },
                }
            }),
    {
        let v = text::chars_of(args);
        let n = v.len();
        match find_char(v.as_slice(), ':', 0) {
            Some(ci) => {
                let mut path_chars: Vec<char> = Vec::new();
                path_chars.extend_from_slice(vstd::slice::slice_subrange(v.as_slice(), 0, ci));
                assert(path_chars@ =~= args@.subrange(0, ci as int));
                let mut rest: Vec<char> = Vec::new();
                rest.extend_from_slice(vstd::slice::slice_subrange(v.as_slice(), ci + 1, n));
                assert(rest@ =~= args@.subrange(ci + 1, args@.len() as int));
                let rest_str = text::string_of(&rest);
                match LineRange::from_str(Some(rest_str.as_str())) {
                    Ok(line_range) => Ok(
                        Include { path: text::string_of(&path_chars), line_range },
                    ),
                    Err(e) => Err(e),
                }
            },
            None => {
                match LineRange::from_str(None) {
                    Ok(line_range) => Ok(Include { path: text::string_of(&v), line_range }),
                    Err(e) => Err(e),
                }
            },
        }
    }

    /// Extract the selected lines from a file's contents, joined with
    /// newlines and without a trailing newline.
    pub fn extract(contents: String, line_range: LineRange) -> (r: String)
        ensures
            r@ == spec_extract(contents@, line_range),
    {
        let cs = text::chars_of(contents.as_str());
        let lines = split_lines(cs.as_slice());
        let ghost ls = spec_lines(contents@);
        assert(lines@.map_values(|l: Vec<char>| l@) =~= ls);
        let start = line_range.start();
        let lo = if start <= lines.len() {
            start
        } else {
            lines.len()
        };
        let cnt = match line_range.end() {
            Some(e) => if e >= start {
                e - start
            } else {
                0
            },
            None => lines.len() - lo,
        };
        let hi = if cnt <= lines.len() - lo {
            lo + cnt
        } else {
            lines.len()
        };
        let mut out: Vec<char> = Vec::new();
        let mut i = lo;
        proof {
            assert(out@ =~= join_nl(ls.subrange(lo as int, lo as int)));
        }
        while i < hi
            invariant
                lo <= i <= hi <= lines@.len(),
                lines@.map_values(|l: Vec<char>| l@) =~= ls,
                out@ == join_nl(ls.subrange(lo as int, i as int)),
            decreases hi - i,
        {
            if i > lo {
                out.push('\n');
            }
            out.extend_from_slice(lines[i].as_slice());
            proof {
                let prev = ls.subrange(lo as int, i as int);
                assert(ls.subrange(lo as int, i + 1 as int) =~= prev.push(ls[i as int]));
                lemma_join_nl_push(prev, ls[i as int]);
                assert(ls[i as int] == lines@.map_values(|l: Vec<char>| l@)[i as int]);
            }
            i = i + 1;
        }
        assert(out@ == join_nl(ls.subrange(lo as int, hi as int)));
        assert(out@ == spec_extract(contents@, line_range));
        text::string_of(&out)
    }
}

} // verus!
