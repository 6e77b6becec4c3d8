//! A page of the project, and the derivation of its output URL and of the
//! relative path from its output location back to the site root.

use vstd::prelude::*;

use crate::front_matter::FrontMatter;
use crate::text;

verus! {

/// One Markdown page: where it lives under the source directory, its
/// metadata, and its body.
#[derive(Debug, PartialEq)]
pub struct Page {
    /// The location of the page's source file relative to the `src`
    /// directory, with `/`-separated segments.
    pub path: String,
    /// Front matter for the page.
    pub front_matter: FrontMatter,
    /// The contents of the page.
    pub contents: String,
}

/// Last index of `c` strictly below `hi`.
pub open spec fn rfind_char(s: Seq<char>, c: char, hi: int) -> Option<int>
    decreases hi,
        when hi <= s.len()
{
    if hi <= 0 {
        None
    } else if s[hi - 1] == c {
        Some(hi - 1)
    } else {
        rfind_char(s, c, hi - 1)
    }
}

/// Where the final path segment begins: right after the last slash.
pub open spec fn seg_start(p: Seq<char>) -> int {
    match rfind_char(p, '/', p.len() as int) {
        Some(i) => i + 1,
        None => 0,
    }
}

/// The page's URL: its path with the extension replaced by `html`. An
/// extension is what follows the last dot of the final segment, provided
/// that dot is not the segment's first character; a path without one gets
/// `.html` appended.
pub open spec fn spec_url_path(p: Seq<char>) -> Seq<char> {
    match rfind_char(p, '.', p.len() as int) {
        Some(d) => {
            if d > seg_start(p) {
                p.subrange(0, d) + seq!['.', 'h', 't', 'm', 'l']
            } else {
                p + seq!['.', 'h', 't', 'm', 'l']
            }
        },
        None => p + seq!['.', 'h', 't', 'm', 'l'],
    }
}

/// The number of slashes in the path: how many directories lie between the
/// site root and the page.
pub open spec fn slash_count(p: Seq<char>) -> int
    decreases p.len(),
{
    if p.len() == 0 {
        0
    } else {
        slash_count(p.drop_last()) + if p.last() == '/' {
            1int
        } else {
            0int
        }
    }
}

/// A path never has a negative number of slashes.
pub proof fn lemma_slash_count_nonneg(p: Seq<char>)
    ensures
        slash_count(p) >= 0,
    decreases p.len(),
{
    if p.len() > 0 {
        lemma_slash_count_nonneg(p.drop_last());
    }
}

/// `n` repetitions of `../`.
pub open spec fn repeat_updir(n: int) -> Seq<char>
    decreases n,
{
    if n <= 0 {
        Seq::empty()
    } else {
        repeat_updir(n - 1) + seq!['.', '.', '/']
    }
}

/// The segments of a path from position `i`, split at each slash.
pub open spec fn segs_from(p: Seq<char>, i: int) -> Seq<Seq<char>>
    decreases p.len() - i,
        when 0 <= i <= p.len()
{
    match crate::line_range::find_char_from(p, '/', i) {
        Some(j) => {
            if i <= j < p.len() {
                seq![p.subrange(i, j)] + segs_from(p, j + 1)
            } else {
                Seq::empty()  // never reached: a found index is in bounds
            }
        },
        None => seq![p.subrange(i, p.len() as int)],
    }
}

/// A well-formed page path: relative, with non-empty plain-name segments.
/// The project assembler only produces such paths.
pub open spec fn path_wf(p: Seq<char>) -> bool {
    &&& p.len() > 0
    &&& forall|k: int|
        0 <= k < segs_from(p, 0).len() ==> {
            let s = #[trigger] segs_from(p, 0)[k];
            s.len() > 0 && s != seq!['.'] && s != seq!['.', '.']
        }
}

/// Last index of `c` in `v`.
pub fn rfind(v: &[char], c: char) -> (r: Option<usize>)
    ensures
        match r {
            Some(i) => i < v@.len() && v@[i as int] == c && rfind_char(v@, c, v@.len() as int)
                == Some(i as int),
            None => rfind_char(v@, c, v@.len() as int) is None,
        },
{
    let mut hi = v.len();
    while hi > 0
        invariant
            0 <= hi <= v@.len(),
            rfind_char(v@, c, v@.len() as int) == rfind_char(v@, c, hi as int),
        decreases hi,
    {
        if v[hi - 1] == c {
            return Some(hi - 1);
        }
        hi = hi - 1;
    }
    None
}

impl Page {
    /// The URL path for this page, relative to the root of the project:
    /// the page path with its extension swapped for `html`.
    pub fn url_path(&self) -> (r: String)
        ensures
            r@ == spec_url_path(self.path@),
    {
        let v = text::chars_of(self.path.as_str());
        let n = v.len();
        let start = match rfind(v.as_slice(), '/') {
            Some(i) => i + 1,
            None => 0,
        };
        let mut out: Vec<char> = Vec::new();
        match rfind(v.as_slice(), '.') {
            Some(d) if d > start => {
                out.extend_from_slice(vstd::slice::slice_subrange(v.as_slice(), 0, d));
                assert(out@ =~= self.path@.subrange(0, d as int));
            },
            _ => {
                out.extend_from_slice(v.as_slice());
                assert(out@ =~= self.path@);
            },
        }
        out.push('.');
        out.push('h');
        out.push('t');
        out.push('m');
        out.push('l');
        assert(out@ =~= spec_url_path(self.path@));
        text::string_of(&out)
    }

    /// The relative path from this page's output location back to the site
    /// root: one `../` for every directory between them.
    pub fn url_path_to_root(&self) -> (r: String)
        requires
            path_wf(self.path@),
        ensures
            r@ == repeat_updir(slash_count(self.path@)),
    {
        let v = text::chars_of(self.path.as_str());
        let n = v.len();
        let mut out: Vec<char> = Vec::new();
        let mut i: usize = 0;
        proof {
            assert(v@.subrange(0, 0) =~= Seq::<char>::empty());
        }
        while i < n
            invariant
                0 <= i <= n,
                n == v@.len(),
                v@ == self.path@,
                out@ == repeat_updir(slash_count(v@.subrange(0, i as int))),
            decreases n - i,
        {
            proof {
                assert(v@.subrange(0, i + 1 as int).drop_last() =~= v@.subrange(0, i as int));
                assert(v@.subrange(0, i + 1 as int).last() == v@[i as int]);
            }
            if v[i] == '/' {
                out.push('.');
                out.push('.');
                out.push('/');
                proof {
                    lemma_slash_count_nonneg(v@.subrange(0, i as int));
                }
                assert(out@ =~= repeat_updir(slash_count(v@.subrange(0, i + 1 as int))));
            }
            i = i + 1;
        }
        proof {
            assert(v@.subrange(0, n as int) =~= v@);
        }
        text::string_of(&out)
    }
}

} // verus!
