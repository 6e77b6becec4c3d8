//! Markdown to HTML rendering, through the external Markdown engine, with
//! internal Markdown links rewritten to point at the rendered pages.

use vstd::prelude::*;

use crate::line_range::find_char_from;
use crate::text;

verus! {

/// What the Markdown engine produces for a content text, links already
/// rewritten: a pure function of the text alone.
pub uninterp spec fn html_of(s: Seq<char>) -> Seq<char>;

/// Last start of `.md` strictly below `hi`.
pub open spec fn rfind_md(s: Seq<char>, hi: int) -> Option<int>
    decreases hi,
        when hi + 2 <= s.len()
{
    if hi <= 0 {
        None
    } else if s[hi - 1] == '.' && s[hi] == 'm' && s[hi + 1] == 'd' {
        Some(hi - 1)
    } else {
        rfind_md(s, hi - 1)
    }
}

/// The rewritten form of one URL, when it links a Markdown file: the text
/// before the last `.md` of the first line, then `.html`, then a fragment
/// if one follows immediately, running to the end of that line. A URL with
/// no such link is kept as it stands.
pub open spec fn spec_fix_url(s: Seq<char>) -> Option<Seq<char>> {
    let lim = match find_char_from(s, '\n', 0) {
        Some(nl) => nl,
        None => s.len() as int,
    };
    match rfind_md(s, lim - 2) {
        Some(d) => {
            let anchor = if d + 3 < lim && s[d + 3] == '#' {
                s.subrange(d + 3, lim)
            } else {
                Seq::empty()
            };
            Some(s.subrange(0, d) + seq!['.', 'h', 't', 'm', 'l'] + anchor)
        },
        None => None,
    }
}

/// Rewrite one URL, when it links a Markdown file.
pub fn fix_markdown_url(url: &str) -> (r: Option<String>)
    ensures
        match r {
            Some(t) => spec_fix_url(url@) == Some(t@),
            None => spec_fix_url(url@) is None,
        },
{
    let v = text::chars_of(url);
    let n = v.len();
    let lim = match crate::line_range::find_char(v.as_slice(), '\n', 0) {
        Some(nl) => nl,
        None => n,
    };
    if lim < 2 {
        proof {
            lemma_rfind_md_none(v@, lim - 2);
        }
        return None;
    }
    let mut hi = lim - 2;
    let mut found: Option<usize> = None;
    while hi > 0 && found.is_none()
        invariant
            0 <= hi,
            hi + 2 <= lim <= n,
            n == v@.len(),
            match found {
                Some(f) => rfind_md(v@, lim - 2) == Some(f as int) && f + 3 <= lim,
                None => rfind_md(v@, lim - 2) == rfind_md(v@, hi as int),
            },
        decreases
                hi + if found is Some {
                    0int
                } else {
                    1int
                },
    {
        if v[hi - 1] == '.' && v[hi] == 'm' && v[hi + 1] == 'd' {
            found = Some(hi - 1);
        } else {
            hi = hi - 1;
        }
    }
    let d: usize = match found {
        Some(f) => f,
        None => {
            return None;
        },
    };
    let mut out: Vec<char> = Vec::new();
    out.extend_from_slice(vstd::slice::slice_subrange(v.as_slice(), 0, d));
    assert(out@ =~= url@.subrange(0, d as int));
    out.push('.');
    out.push('h');
    out.push('t');
    out.push('m');
    out.push('l');
    if d + 3 < lim && v[d + 3] == '#' {
        out.extend_from_slice(vstd::slice::slice_subrange(v.as_slice(), d + 3, lim));
    }
    assert(out@ =~= spec_fix_url(url@)->0);
    Some(text::string_of(&out))
}

/// Below position zero there is no match.
proof fn lemma_rfind_md_none(s: Seq<char>, hi: int)
    requires
        hi <= 0,
        hi + 2 <= s.len(),
    ensures
        rfind_md(s, hi) is None,
{
}

/// The Markdown engine's event type, carried through opaquely.
#[verifier::external_type_specification]
#[verifier::external_body]
pub struct ExEvent<'a>(pulldown_cmark::Event<'a>);

/// Relies on `pulldown_cmark::Parser::new_ext` with all options and
/// `pulldown_cmark::html::push_html`: the HTML for a Markdown text depends
/// on the text alone. Link and image URLs pass through the verified
/// `fix_markdown_url` before the HTML is written.
#[verifier::external_body]
fn md_to_html(s: &str) -> (r: String)
    ensures
        r@ == html_of(s@),
{
    let parser = pulldown_cmark::Parser::new_ext(s, pulldown_cmark::Options::all());
    let mut html = String::new();
    pulldown_cmark::html::push_html(&mut html, parser.map(fix_link_event));
    html
}

/// Relies on `pulldown_cmark::Event` and `Tag`: rewrite the URL of a link
/// or image event through the verified `fix_markdown_url`, moving every
/// other field and event through untouched.
#[verifier::external_body]
fn fix_link_event(ev: pulldown_cmark::Event<'_>) -> pulldown_cmark::Event<'_> {
    match ev {
        pulldown_cmark::Event::Start(pulldown_cmark::Tag::Link { link_type, dest_url, title, id }) =>
            pulldown_cmark::Event::Start(pulldown_cmark::Tag::Link {
                link_type, dest_url: fix_url_cow(dest_url), title, id,
            }),
        pulldown_cmark::Event::Start(pulldown_cmark::Tag::Image { link_type, dest_url, title, id }) =>
            pulldown_cmark::Event::Start(pulldown_cmark::Tag::Image {
                link_type, dest_url: fix_url_cow(dest_url), title, id,
            }),
        ev => ev,
    }
}

/// The Markdown engine's string type, carried through opaquely.
#[verifier::external_type_specification]
#[verifier::external_body]
pub struct ExCowStr<'a>(pulldown_cmark::CowStr<'a>);

/// Relies on `pulldown_cmark::CowStr`: hand a URL through the verified
/// rewriting, keeping it whole when no Markdown link is found.
#[verifier::external_body]
fn fix_url_cow(url: pulldown_cmark::CowStr<'_>) -> pulldown_cmark::CowStr<'static> {
    match fix_markdown_url(url.as_ref()) {
        Some(fixed) => pulldown_cmark::CowStr::from(fixed),
        None => pulldown_cmark::CowStr::from(url.into_string()),
    }
}

/// A Markdown to HTML renderer for one content text.
pub struct Renderer {
    /// The Markdown text to render.
    pub contents: String,
}

impl Renderer {
    /// Create a new `Renderer` over one text.
    pub fn new(s: &str) -> (r: Renderer)
        ensures
            r.contents@ == s@,
    {
        Renderer { contents: s.to_owned() }
    }

    /// Consume the `Renderer` and output HTML.
    pub fn render(self) -> (r: String)
        ensures
            r@ == html_of(self.contents@),
    {
        md_to_html(self.contents.as_str())
    }
}

} // verus!
