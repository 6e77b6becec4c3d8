//! Directive preprocessing: scanning page content for `{{ #name args }}`
//! markers, resolving include directives, and substituting their text.
//!
//! A directive opens with two braces, optional whitespace and a `#`-prefixed
//! name, then at least one whitespace character and an argument text that
//! runs to the first closing brace pair on the same line, trailing
//! whitespace stripped. A recognized directive that parses is replaced by
//! its resolved text; a malformed or unrecognized one is left as it stands
//! and only reported as a warning.

use vstd::prelude::*;

use crate::error::Error;
use crate::document::skip_ws;
use crate::inclusion::Include;
use crate::line_range::{LineRange, LineRangeParse, find_char_from, spec_line_range};
use crate::page::{Page, rfind_char};
use crate::text;

verus! {

/// One directive occurrence: what to insert and which span it replaces.
#[derive(Debug, PartialEq)]
pub struct Directive {
    /// The include to resolve.
    pub inc: Include,
    /// Byte-free character offsets of the matched span in the content.
    pub start: usize,
    pub end: usize,
}

/// One scanner match: a directive name, its argument text, and its span.
pub struct SpecMatch {
    pub name: Seq<char>,
    pub args: Seq<char>,
    pub start: int,
    pub end: int,
}

/// The characters of the one recognized directive name.
pub open spec fn include_name() -> Seq<char> {
    seq!['i', 'n', 'c', 'l', 'u', 'd', 'e']
}

pub open spec fn is_word_char(c: char) -> bool {
    ('a' <= c && c <= 'z') || ('A' <= c && c <= 'Z') || ('0' <= c && c <= '9') || c == '_'
}

/// First position at or after `i` that is not a word character.
pub open spec fn word_end(s: Seq<char>, i: int) -> int
    decreases s.len() - i,
        when 0 <= i <= s.len()
{
    if i == s.len() {
        i
    } else if is_word_char(s[i]) {
        word_end(s, i + 1)
    } else {
        i
    }
}

/// First closing brace pair at or after `i`, both braces before `lim`.
pub open spec fn find_braces(s: Seq<char>, i: int, lim: int) -> Option<int>
    decreases lim - i,
        when i <= lim
{
    if i + 2 > lim {
        None
    } else if s[i] == '}' && s[i + 1] == '}' {
        Some(i)
    } else {
        find_braces(s, i + 1, lim)
    }
}

/// The argument text with trailing whitespace removed.
pub open spec fn rstrip_ws(s: Seq<char>) -> Seq<char>
    decreases s.len(),
{
    if s.len() > 0 && text::is_ws_char(s.last()) {
        rstrip_ws(s.drop_last())
    } else {
        s
    }
}

/// The directive match starting exactly at `i`, if any: brace pair,
/// whitespace, `#`, a non-empty name, whitespace, arguments, and a closing
/// brace pair on the name's line.
pub open spec fn match_at(s: Seq<char>, i: int) -> Option<SpecMatch>
    recommends
        0 <= i <= s.len(),
{
    if !(i + 2 <= s.len() && s[i] == '{' && s[i + 1] == '{') {
        None
    } else {
        let j = skip_ws(s, i + 2);
        if !(j < s.len() && s[j] == '#') {
            None
        } else {
            let k = word_end(s, j + 1);
            if k == j + 1 || !(k < s.len() && text::is_ws_char(s[k])) {
                None
            } else {
                let a = skip_ws(s, k);
                let lim = match find_char_from(s, '\n', a) {
                    Some(nl) => nl,
                    None => s.len() as int,
                };
                match find_braces(s, a, lim) {
                    Some(q) => Some(
                        SpecMatch {
                            name: s.subrange(j + 1, k),
                            args: rstrip_ws(s.subrange(a, q)),
                            start: i,
                            end: q + 2,
                        },
                    ),
                    None => None,
                }
            }
        }
    }
}

/// All directive matches, scanning left to right without overlap.
pub open spec fn scan_from(s: Seq<char>, i: int) -> Seq<SpecMatch>
    decreases s.len() - i,
        when 0 <= i <= s.len()
{
    if i >= s.len() {
        Seq::empty()
    } else {
        match match_at(s, i) {
            Some(m) => {
                if i < m.end <= s.len() {
                    seq![m] + scan_from(s, m.end)
                } else {
                    Seq::empty()  // never reached: a match ends inside the text
                }
            },
            None => scan_from(s, i + 1),
        }
    }
}

/// The include an argument text denotes, if it parses: the part before the
/// first colon is the path, the rest the line range.
pub open spec fn spec_inc_of(args: Seq<char>) -> Option<(Seq<char>, LineRange)> {
    let path = match find_char_from(args, ':', 0) {
        Some(ci) => args.subrange(0, ci),
        None => args,
    };
    let rs = match find_char_from(args, ':', 0) {
        Some(ci) => args.subrange(ci + 1, args.len() as int),
        None => Seq::empty(),
    };
    match spec_line_range(rs) {
        LineRangeParse::Parsed(lr) => Some((path, lr)),
        _ => None,
    }
}

/// The well-parsed include directives among the matches: their paths, line
/// ranges and spans, in document order.
pub open spec fn dirs_of(ms: Seq<SpecMatch>) -> Seq<(Seq<char>, LineRange, int, int)>
    decreases ms.len(),
{
    if ms.len() == 0 {
        Seq::empty()
    } else {
        let m = ms[0];
        let rest = dirs_of(ms.drop_first());
        if m.name == include_name() && spec_inc_of(m.args) is Some {
            seq![
                ((spec_inc_of(m.args)->0).0, (spec_inc_of(m.args)->0).1, m.start, m.end),
            ] + rest
        } else {
            rest
        }
    }
}

/// The recognized include directives of a content text.
pub open spec fn spec_directives(s: Seq<char>) -> Seq<(Seq<char>, LineRange, int, int)> {
    dirs_of(scan_from(s, 0))
}

/// The warnings the matches draw, in document order: one naming each
/// unrecognized directive, one quoting each malformed include.
pub open spec fn warns_of(s: Seq<char>, ms: Seq<SpecMatch>) -> Seq<Seq<char>>
    decreases ms.len(),
{
    if ms.len() == 0 {
        Seq::empty()
    } else {
        let m = ms[0];
        let rest = warns_of(s, ms.drop_first());
        if m.name == include_name() && spec_inc_of(m.args) is Some {
            rest
        } else if m.name == include_name() {
            seq![
                "failed to parse include directive `"@ + s.subrange(m.start, m.end) + "`"@,
            ] + rest
        } else {
            seq!["unrecognized directive `"@ + m.name + "`"@] + rest
        }
    }
}

/// The view of one directive.
pub open spec fn dir_view(d: Directive) -> (Seq<char>, LineRange, int, int) {
    (d.inc.path@, d.inc.line_range, d.start as int, d.end as int)
}

/// First non-whitespace position at or after `i`.
fn skip_ws_exec(v: &[char], i: usize) -> (r: usize)
    requires
        i <= v@.len(),
    ensures
        r == skip_ws(v@, i as int),
        i <= r <= v@.len(),
{
    let n = v.len();
    let mut j = i;
    while j < n && text::is_ws(v[j])
        invariant
            i <= j <= n,
            n == v@.len(),
            skip_ws(v@, i as int) == skip_ws(v@, j as int),
        decreases n - j,
    {
        j = j + 1;
    }
    j
}

/// Whether `c` may stand in a directive name.
fn is_word(c: char) -> (r: bool)
    ensures
        r == is_word_char(c),
{
    ('a' <= c && c <= 'z') || ('A' <= c && c <= 'Z') || ('0' <= c && c <= '9') || c == '_'
}

/// First position at or after `i` that is not a word character.
fn word_end_exec(v: &[char], i: usize) -> (r: usize)
    requires
        i <= v@.len(),
    ensures
        r == word_end(v@, i as int),
        i <= r <= v@.len(),
{
    let n = v.len();
    let mut j = i;
    while j < n && is_word(v[j])
        invariant
            i <= j <= n,
            n == v@.len(),
            word_end(v@, i as int) == word_end(v@, j as int),
        decreases n - j,
    {
        j = j + 1;
    }
    j
}

/// First closing brace pair at or after `i`, both braces before `lim`.
fn find_braces_exec(v: &[char], i: usize, lim: usize) -> (r: Option<usize>)
    requires
        i <= lim <= v@.len(),
    ensures
        match r {
            Some(q) => i <= q && q + 2 <= lim && find_braces(v@, i as int, lim as int) == Some(
                q as int,
            ),
            None => find_braces(v@, i as int, lim as int) is None,
        },
{
    let mut j = i;
    while lim - j >= 2
        invariant
            i <= j <= lim <= v@.len(),
            find_braces(v@, i as int, lim as int) == find_braces(v@, j as int, lim as int),
        decreases lim - j,
    {
        if v[j] == '}' && v[j + 1] == '}' {
            return Some(j);
        }
        j = j + 1;
    }
    None
}

/// The directive match starting exactly at `i`, if any: its name, argument
/// text, and end position.
fn match_at_exec(v: &[char], i: usize) -> (r: Option<(Vec<char>, Vec<char>, usize)>)
    requires
        i <= v@.len(),
    ensures
        match r {
            Some(m) => {
                &&& match_at(v@, i as int) is Some
                &&& ({
                    let sm = match_at(v@, i as int)->0;
                    m.0@ == sm.name && m.1@ == sm.args && m.2 as int == sm.end && i < m.2
                        && m.2 <= v@.len()
                })
            },
            None => match_at(v@, i as int) is None,
        },
{
    let n = v.len();
    if !(n - i >= 2 && v[i] == '{' && v[i + 1] == '{') {
        return None;
    }
    let j = skip_ws_exec(v, i + 2);
    if !(j < n && v[j] == '#') {
        return None;
    }
    let k = word_end_exec(v, j + 1);
    if k == j + 1 || !(k < n && text::is_ws(v[k])) {
        return None;
    }
    let a = skip_ws_exec(v, k);
    let lim = match crate::line_range::find_char(v, '\n', a) {
        Some(nl) => nl,
        None => n,
    };
    let q = match find_braces_exec(v, a, lim) {
        Some(q) => q,
        None => {
            return None;
        },
    };
    let mut name: Vec<char> = Vec::new();
    name.extend_from_slice(vstd::slice::slice_subrange(v, j + 1, k));
    assert(name@ =~= v@.subrange(j + 1 as int, k as int));
    let mut args: Vec<char> = Vec::new();
    args.extend_from_slice(vstd::slice::slice_subrange(v, a, q));
    assert(args@ =~= v@.subrange(a as int, q as int));
    while args.len() > 0 && text::is_ws(args[args.len() - 1])
        invariant
            rstrip_ws(args@) == rstrip_ws(v@.subrange(a as int, q as int)),
        decreases args@.len(),
    {
        args.pop();
    }
    assert(args@ == rstrip_ws(v@.subrange(a as int, q as int)));
    Some((name, args, q + 2))
}

/// Whether a name reads `include`.
fn is_include_name(name: &Vec<char>) -> (r: bool)
    ensures
        r == (name@ == include_name()),
{
    if name.len() != 7 {
        assert(name@ != include_name());
        return false;
    }
    let r = name[0] == 'i' && name[1] == 'n' && name[2] == 'c' && name[3] == 'l' && name[4] == 'u'
        && name[5] == 'd' && name[6] == 'e';
    proof {
        if r {
            assert(name@ =~= include_name());
        } else {
            assert(name@ != include_name());
        }
    }
    r
}

/// Scan content for directives: the include directives that parse, in
/// document order with their spans, and one warning for every unrecognized
/// or malformed directive, naming it.
pub fn find_directives(contents: &str) -> (r: (Vec<Directive>, Vec<String>))
    ensures
        r.0@.map_values(|d: Directive| dir_view(d)) =~= spec_directives(contents@),
        r.1@.map_values(|w: String| w@) =~= warns_of(contents@, scan_from(contents@, 0)),
{
    let v = text::chars_of(contents);
    let n = v.len();
    let mut dirs: Vec<Directive> = Vec::new();
    let mut warns: Vec<String> = Vec::new();
    let mut i: usize = 0;
    while i < n
        invariant
            0 <= i <= n,
            n == v@.len(),
            v@ == contents@,
            spec_directives(contents@) =~= dirs@.map_values(|d: Directive| dir_view(d))
                + dirs_of(scan_from(contents@, i as int)),
            warns_of(contents@, scan_from(contents@, 0)) =~= warns@.map_values(|w: String| w@)
                + warns_of(contents@, scan_from(contents@, i as int)),
        decreases n - i,
    {
        match match_at_exec(v.as_slice(), i) {
            None => {
                i = i + 1;
            },
            Some((name, args, end)) => {
                let ghost ms = scan_from(contents@, i as int);
                proof {
                    assert(ms == seq![match_at(contents@, i as int)->0] + scan_from(
                        contents@,
                        end as int,
                    ));
                    assert(ms.drop_first() =~= scan_from(contents@, end as int));
                }
                if is_include_name(&name) {
                    let args_str = text::string_of(&args);
                    match Include::from_str(args_str.as_str()) {
                        Ok(inc) => {
                            let d = Directive { inc, start: i, end };
                            dirs.push(d);
                            proof {
                                assert(dirs@.map_values(|d: Directive| dir_view(d))
                                    =~= dirs@.drop_last().map_values(
                                    |d: Directive| dir_view(d),
                                ).push(dir_view(dirs@.last())));
                            }
                        },
                        Err(_) => {
                            let mut w = String::new();
                            w.append("failed to parse include directive `");
                            let mut span: Vec<char> = Vec::new();
                            span.extend_from_slice(
                                vstd::slice::slice_subrange(v.as_slice(), i, end),
                            );
                            assert(span@ =~= contents@.subrange(i as int, end as int));
                            let span_str = text::string_of(&span);
                            w.append(span_str.as_str());
                            w.append("`");
                            warns.push(w);
                            proof {
                                assert(warns@.map_values(|w: String| w@) =~= warns@.drop_last()
                                    .map_values(|w: String| w@).push(warns@.last()@));
                            }
                        },
                    }
                } else {
                    let mut w = String::new();
                    w.append("unrecognized directive `");
                    let name_str = text::string_of(&name);
                    w.append(name_str.as_str());
                    w.append("`");
                    warns.push(w);
                    proof {
                        assert(warns@.map_values(|w: String| w@) =~= warns@.drop_last()
                            .map_values(|w: String| w@).push(warns@.last()@));
                    }
                }
                i = end;
            },
        }
    }
    (dirs, warns)
}

/// What substitution produces from position `from` on: the gap before each
/// directive, its replacement text in place of its span, and the tail after
/// the last one.
pub open spec fn spec_substitute(
    s: Seq<char>,
    ds: Seq<(Seq<char>, LineRange, int, int)>,
    texts: Seq<Seq<char>>,
    from: int,
) -> Seq<char>
    decreases ds.len(),
{
    if ds.len() == 0 {
        s.subrange(from, s.len() as int)
    } else {
        s.subrange(from, ds[0].2) + texts[0] + spec_substitute(
            s,
            ds.drop_first(),
            texts.drop_first(),
            ds[0].3,
        )
    }
}

/// Match spans lie within `[lo, hi]`, ordered and non-overlapping.
pub open spec fn spans_sorted(ms: Seq<SpecMatch>, lo: int, hi: int) -> bool {
    &&& forall|k: int|
        0 <= k < ms.len() ==> lo <= (#[trigger] ms[k]).start < ms[k].end <= hi
    &&& forall|k: int, l: int|
        0 <= k < l < ms.len() ==> (#[trigger] ms[k]).end <= (#[trigger] ms[l]).start
}

/// Directive spans lie within `[lo, hi]`, ordered and non-overlapping.
pub open spec fn dspans_sorted(
    ds: Seq<(Seq<char>, LineRange, int, int)>,
    lo: int,
    hi: int,
) -> bool {
    &&& forall|k: int| 0 <= k < ds.len() ==> lo <= (#[trigger] ds[k]).2 < ds[k].3 <= hi
    &&& forall|k: int, l: int|
        0 <= k < l < ds.len() ==> (#[trigger] ds[k]).3 <= (#[trigger] ds[l]).2
}

/// Selecting the well-parsed includes keeps the spans sorted.
pub proof fn lemma_dirs_sorted(ms: Seq<SpecMatch>, lo: int, hi: int)
    requires
        spans_sorted(ms, lo, hi),
    ensures
        dspans_sorted(dirs_of(ms), lo, hi),
    decreases ms.len(),
{
    if ms.len() > 0 {
        let m = ms[0];
        let rest = ms.drop_first();
        assert(forall|k: int| 0 <= k < rest.len() ==> #[trigger] rest[k] == ms[k + 1]);
        if m.name == include_name() && spec_inc_of(m.args) is Some {
            assert(spans_sorted(rest, m.end, hi));
            lemma_dirs_sorted(rest, m.end, hi);
            let ds = dirs_of(ms);
            let dr = dirs_of(rest);
            assert(ds == seq![
                ((spec_inc_of(m.args)->0).0, (spec_inc_of(m.args)->0).1, m.start, m.end),
            ] + dr);
            assert(forall|k: int| 0 <= k < dr.len() ==> #[trigger] ds[k + 1] == dr[k]);
            assert forall|k: int, l: int| 0 <= k < l < ds.len() implies (#[trigger] ds[k]).3 <= (
            #[trigger] ds[l]).2 by {
                if k > 0 {
                    assert(ds[k] == dr[k - 1] && ds[l] == dr[l - 1]);
                } else {
                    assert(ds[l] == dr[l - 1]);
                }
            }
        } else {
            assert(spans_sorted(rest, lo, hi));
            lemma_dirs_sorted(rest, lo, hi);
            assert(dirs_of(ms) == dirs_of(rest));
        }
    }
}

/// Spans of scanner matches are ordered and in bounds from `i`.
pub proof fn lemma_scan_spans(s: Seq<char>, i: int)
    requires
        0 <= i <= s.len(),
    ensures
        spans_sorted(scan_from(s, i), i, s.len() as int),
    decreases s.len() - i,
{
    if i < s.len() {
        match match_at(s, i) {
            Some(m) => {
                if i < m.end <= s.len() {
                    lemma_scan_spans(s, m.end);
                    let ms = scan_from(s, i);
                    let rest = scan_from(s, m.end);
                    assert(ms == seq![m] + rest);
                    assert(m.start == i);
                    assert(forall|k: int| 0 <= k < rest.len() ==> #[trigger] ms[k + 1] == rest[k]);
                    assert forall|k: int| 0 <= k < ms.len() implies i <= (
                    #[trigger] ms[k]).start < ms[k].end <= s.len() by {
                        if k > 0 {
                            assert(ms[k] == rest[k - 1]);
                        }
                    }
                    assert forall|k: int, l: int| 0 <= k < l < ms.len() implies (
                    #[trigger] ms[k]).end <= (#[trigger] ms[l]).start by {
                        assert(ms[l] == rest[l - 1]);
                        if k > 0 {
                            assert(ms[k] == rest[k - 1]);
                        }
                    }
                }
            },
            None => {
                lemma_scan_spans(s, i + 1);
                assert(scan_from(s, i) == scan_from(s, i + 1));
                let ms = scan_from(s, i);
                assert forall|k: int| 0 <= k < ms.len() implies i <= (#[trigger] ms[k]).start
                    < ms[k].end <= s.len() by {
                    assert(ms[k] == scan_from(s, i + 1)[k]);
                }
                assert forall|k: int, l: int| 0 <= k < l < ms.len() implies (
                #[trigger] ms[k]).end <= (#[trigger] ms[l]).start by {
                    assert(ms[k] == scan_from(s, i + 1)[k]);
                    assert(ms[l] == scan_from(s, i + 1)[l]);
                }
            },
        }
    }
}

/// Joining two path pieces: an absolute right side stands alone.
pub open spec fn spec_join(a: Seq<char>, b: Seq<char>) -> Seq<char> {
    if b.len() > 0 && b[0] == '/' {
        b
    } else {
        a + seq!['/'] + b
    }
}

/// The directory part of a path: everything before the last slash.
pub open spec fn spec_parent(p: Seq<char>) -> Seq<char> {
    match rfind_char(p, '/', p.len() as int) {
        Some(i) => p.subrange(0, i),
        None => Seq::empty(),
    }
}

/// Where an include path points: relative to the directory holding the
/// page's source file under the source directory.
pub open spec fn spec_resolved(
    src_dir: Seq<char>,
    page_path: Seq<char>,
    inc_path: Seq<char>,
) -> Seq<char> {
    spec_join(spec_parent(spec_join(src_dir, page_path)), inc_path)
}

/// Join two path pieces with a slash; an absolute right side stands alone.
fn join_piece(a: &str, b: &str) -> (r: String)
    ensures
        r@ == spec_join(a@, b@),
{
    let bv = text::chars_of(b);
    if bv.len() > 0 && bv[0] == '/' {
        return b.to_owned();
    }
    let mut out = String::new();
    out.append(a);
    out.append("/");
    out.append(b);
    proof {
        reveal_strlit("/");
        assert("/"@ =~= seq!['/']);
    }
    out
}

/// The directory part of a path: everything before the last slash.
fn parent_piece(p: &str) -> (r: String)
    ensures
        r@ == spec_parent(p@),
{
    let v = text::chars_of(p);
    let mut out: Vec<char> = Vec::new();
    match crate::page::rfind(v.as_slice(), '/') {
        Some(i) => {
            out.extend_from_slice(vstd::slice::slice_subrange(v.as_slice(), 0, i));
            assert(out@ =~= p@.subrange(0, i as int));
        },
        None => {},
    }
    proof {
        if rfind_char(p@, '/', p@.len() as int) is None {
            assert(out@ =~= Seq::<char>::empty());
        }
    }
    text::string_of(&out)
}

/// What the replacement texts are, once every referenced file was read:
/// the lines each directive's range selects.
pub open spec fn spec_replacements(
    ds: Seq<(Seq<char>, LineRange, int, int)>,
    reads: Seq<Result<String, String>>,
) -> Seq<Seq<char>> {
    Seq::new(ds.len() as nat, |k: int| crate::inclusion::spec_extract(reads[k]->Ok_0@, ds[k].1))
}

/// Replace each directive span with its text, keeping the gaps.
fn substitute(v: &[char], dirs: &Vec<Directive>, texts: &Vec<String>) -> (r: Vec<char>)
    requires
        dirs@.len() == texts@.len(),
        dspans_sorted(dirs@.map_values(|d: Directive| dir_view(d)), 0, v@.len() as int),
    ensures
        r@ == spec_substitute(
            v@,
            dirs@.map_values(|d: Directive| dir_view(d)),
            texts@.map_values(|t: String| t@),
            0,
        ),
{
    let ghost dsv = dirs@.map_values(|d: Directive| dir_view(d));
    let ghost tsv = texts@.map_values(|t: String| t@);
    let mut out: Vec<char> = Vec::new();
    let mut prev: usize = 0;
    let mut idx: usize = 0;
    let n = v.len();
    proof {
        assert(dsv.skip(0) =~= dsv);
        assert(tsv.skip(0) =~= tsv);
    }
    while idx < dirs.len()
        invariant
            0 <= idx <= dirs@.len(),
            dirs@.len() == texts@.len(),
            n == v@.len(),
            dsv == dirs@.map_values(|d: Directive| dir_view(d)),
            tsv == texts@.map_values(|t: String| t@),
            dspans_sorted(dsv, 0, n as int),
            idx < dsv.len() ==> prev <= dsv[idx as int].2,
            prev <= n,
            spec_substitute(v@, dsv, tsv, 0) == out@ + spec_substitute(
                v@,
                dsv.skip(idx as int),
                tsv.skip(idx as int),
                prev as int,
            ),
        decreases dirs@.len() - idx,
    {
        let d_start = dirs[idx].start;
        let d_end = dirs[idx].end;
        proof {
            assert(dsv[idx as int] == dir_view(dirs@[idx as int]));
            assert(dsv[idx as int].2 == d_start as int && dsv[idx as int].3 == d_end as int);
        }
        out.extend_from_slice(vstd::slice::slice_subrange(v, prev, d_start));
        let t = text::chars_of(texts[idx].as_str());
        out.extend_from_slice(t.as_slice());
        proof {
            let rest_d = dsv.skip(idx as int);
            let rest_t = tsv.skip(idx as int);
            assert(rest_d[0] == dsv[idx as int]);
            assert(rest_t[0] == tsv[idx as int]);
            assert(rest_d.drop_first() =~= dsv.skip(idx + 1 as int));
            assert(rest_t.drop_first() =~= tsv.skip(idx + 1 as int));
            assert(spec_substitute(v@, rest_d, rest_t, prev as int) == v@.subrange(
                prev as int,
                d_start as int,
            ) + tsv[idx as int] + spec_substitute(
                v@,
                dsv.skip(idx + 1 as int),
                tsv.skip(idx + 1 as int),
                d_end as int,
            ));
            if idx + 1 < dsv.len() {
                assert(dsv[idx as int].3 <= dsv[idx + 1 as int].2);
            }
        }
        prev = d_end;
        idx = idx + 1;
    }
    out.extend_from_slice(vstd::slice::slice_subrange(v, prev, n));
    proof {
        assert(dsv.skip(idx as int) =~= Seq::<(Seq<char>, LineRange, int, int)>::empty());
        assert(spec_substitute(
            v@,
            dsv.skip(idx as int),
            tsv.skip(idx as int),
            prev as int,
        ) == v@.subrange(prev as int, n as int));
    }
    out
}

impl Page {
    /// The files this page's include directives reference, resolved against
    /// the directory holding the page, in document order.
    pub fn include_paths(&self, config: &crate::config::Config) -> (r: Vec<String>)
        ensures
            r@.len() == spec_directives(self.contents@).len(),
            forall|k: int|
                0 <= k < r@.len() ==> (#[trigger] r@[k])@ == spec_resolved(
                    config.root_dir@ + "/"@ + "src"@,
                    self.path@,
                    spec_directives(self.contents@)[k].0,
                ),
    {
        let (dirs, _) = find_directives(self.contents.as_str());
        let src_dir = config.src_dir();
        let page_full = join_piece(src_dir.as_str(), self.path.as_str());
        let dir = parent_piece(page_full.as_str());
        let mut out: Vec<String> = Vec::new();
        let mut i: usize = 0;
        let ghost dsv = spec_directives(self.contents@);
        while i < dirs.len()
            invariant
                0 <= i <= dirs@.len(),
                dirs@.map_values(|d: Directive| dir_view(d)) =~= dsv,
                dir@ == spec_parent(spec_join(config.root_dir@ + "/"@ + "src"@, self.path@)),
                out@.len() == i,
                forall|k: int|
                    0 <= k < i ==> (#[trigger] out@[k])@ == spec_resolved(
                        config.root_dir@ + "/"@ + "src"@,
                        self.path@,
                        dsv[k].0,
                    ),
            decreases dirs@.len() - i,
        {
            proof {
                assert(dir_view(dirs@[i as int]) == dsv[i as int]);
            }
            let resolved = join_piece(dir.as_str(), dirs[i].inc.path.as_str());
            out.push(resolved);
            i = i + 1;
        }
        out
    }

    /// Resolve this page's include directives against the texts read for
    /// them, in document order, and substitute each directive's span.
    ///
    /// Succeeds if and only if every read succeeded; the first failed read
    /// aborts with a chain naming the page and the unreadable file. The
    /// path and front matter are untouched; the contents become the gaps
    /// around each directive with its selected lines in between.
    pub fn preprocess(self, config: &crate::config::Config, reads: &Vec<Result<String, String>>) -> (r:
        Result<Page, Error>)
        requires
            reads@.len() == spec_directives(self.contents@).len(),
        ensures
            match r {
                Ok(p) => {
                    &&& forall|k: int| 0 <= k < reads@.len() ==> (#[trigger] reads@[k]) is Ok
                    &&& p.path == self.path
                    &&& p.front_matter == self.front_matter
                    &&& p.contents@ == spec_substitute(
                        self.contents@,
                        spec_directives(self.contents@),
                        spec_replacements(spec_directives(self.contents@), reads@),
                        0,
                    )
                },
                Err(e) => exists|k: int|
                    #![trigger reads@[k]]
                    {
                        &&& 0 <= k < reads@.len()
                        &&& reads@[k] is Err
                        &&& forall|m: int| 0 <= m < k ==> (#[trigger] reads@[m]) is Ok
                        &&& e@.len() == 3
                        &&& e@[0] == "failed to preprocess page `"@ + self.path@ + "`"@
                        &&& e@[1] == "failed to read from `"@ + spec_resolved(
                            config.root_dir@ + "/"@ + "src"@,
                            self.path@,
                            spec_directives(self.contents@)[k].0,
                        ) + "`"@
                        &&& e@[2] == reads@[k]->Err_0@
                    },
            },
    {
        let v = text::chars_of(self.contents.as_str());
        let (dirs, _) = find_directives(self.contents.as_str());
        let ghost dsv = spec_directives(self.contents@);
        proof {
            lemma_scan_spans(self.contents@, 0);
            lemma_dirs_sorted(scan_from(self.contents@, 0), 0, self.contents@.len() as int);
        }
        let src_dir = config.src_dir();
        let page_full = join_piece(src_dir.as_str(), self.path.as_str());
        let dir = parent_piece(page_full.as_str());
        let mut texts: Vec<String> = Vec::new();
        let mut i: usize = 0;
        while i < dirs.len()
            invariant
                0 <= i <= dirs@.len(),
                dirs@.map_values(|d: Directive| dir_view(d)) =~= dsv,
                dsv == spec_directives(self.contents@),
                dir@ == spec_parent(spec_join(config.root_dir@ + "/"@ + "src"@, self.path@)),
                reads@.len() == dsv.len(),
                texts@.len() == i,
                forall|k: int| 0 <= k < i ==> (#[trigger] reads@[k]) is Ok,
                forall|k: int|
                    0 <= k < i ==> (#[trigger] texts@[k])@ == crate::inclusion::spec_extract(
                        reads@[k]->Ok_0@,
                        dsv[k].1,
                    ),
            decreases dirs@.len() - i,
        {
            proof {
                assert(dir_view(dirs@[i as int]) == dsv[i as int]);
            }
            match &reads[i] {
                Ok(file_text) => {
                    let lr = dirs[i].inc.line_range;
                    let extracted = Include::extract(file_text.clone(), lr);
                    proof {
                        assert(dirs@[i as int].inc.line_range == dsv[i as int].1);
                    }
                    texts.push(extracted);
                },
                Err(io_msg) => {
                    let resolved = join_piece(dir.as_str(), dirs[i].inc.path.as_str());
                    let mut inner = String::new();
                    inner.append("failed to read from `");
                    inner.append(resolved.as_str());
                    inner.append("`");
                    let mut outer = String::new();
                    outer.append("failed to preprocess page `");
                    outer.append(self.path.as_str());
                    outer.append("`");
                    proof {
                        assert(0 <= i < reads@.len() && reads@[i as int] is Err);
                    }
                    return Err(
                        Error::new(io_msg.clone()).context(inner).context(outer),
                    );
                },
            }
            i = i + 1;
        }
        let new_contents = substitute(v.as_slice(), &dirs, &texts);
        proof {
            assert(texts@.map_values(|t: String| t@) =~= spec_replacements(dsv, reads@));
        }
        let Page { path, front_matter, contents: _ } = self;
        Ok(Page { path, front_matter, contents: text::string_of(&new_contents) })
    }
}

} // verus!
