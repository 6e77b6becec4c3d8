//! The whole project: configuration, theme and pages, assembled from the
//! loaded sources and rendered to an output in one pass.

use vstd::prelude::*;

use crate::config::Config;
use crate::error::Error;
use crate::front_matter::{RawPage, parse_ok, spec_parses};
use crate::output::Output;
use crate::page::{Page, path_wf, segs_from};
use crate::preprocess::{spec_directives, spec_replacements, spec_substitute};
use crate::text;
use crate::theme::Theme;

verus! {

/// An in-memory project: configuration, theme, and every page in walk
/// order.
#[derive(Debug)]
pub struct Project {
    /// The configuration used to control how the project is built.
    pub config: Config,
    /// The theme to use when rendering the project's HTML.
    pub theme: Theme,
    /// Each of the project's pages.
    pub pages: Vec<Page>,
}

/// Whether one loaded page came from one raw source file.
pub open spec fn page_from(raw: (String, String), page: Page) -> bool {
    &&& page.path == raw.0
    &&& spec_parses(
        raw.1@,
        RawPage { front_matter: page.front_matter, contents: page.contents },
    )
}

/// Whether a path may name a page: non-empty plain-name segments only.
pub fn path_is_wf(p: &str) -> (r: bool)
    ensures
        r == path_wf(p@),
{
    let v = text::chars_of(p);
    let n = v.len();
    if n == 0 {
        return false;
    }
    let mut i: usize = 0;
    let ghost mut done: Seq<Seq<char>> = Seq::empty();
    proof {
        assert(segs_from(p@, 0) =~= done + segs_from(p@, 0));
    }
    loop
        invariant
            0 <= i <= n,
            n == v@.len(),
            v@ == p@,
            p@.len() > 0,
            segs_from(p@, 0) =~= done + segs_from(p@, i as int),
            forall|k: int|
                0 <= k < done.len() ==> {
                    let s = #[trigger] done[k];
                    s.len() > 0 && s != seq!['.'] && s != seq!['.', '.']
                },
        decreases n - i,
    {
        proof {
            crate::inclusion::lemma_find_char_from(v@, '/', i as int);
        }
        let j = match crate::line_range::find_char(v.as_slice(), '/', i) {
            Some(j) => j,
            None => {
                let ok = seg_ok(v.as_slice(), i, n);
                proof {
                    assert(segs_from(p@, i as int) == seq![p@.subrange(i as int, n as int)]);
                    if !ok {
                        assert(segs_from(p@, 0)[done.len() as int] == p@.subrange(
                            i as int,
                            n as int,
                        ));
                    }
                }
                return ok;
            },
        };
        let ok = seg_ok(v.as_slice(), i, j);
        proof {
            assert(segs_from(p@, i as int) == seq![p@.subrange(i as int, j as int)] + segs_from(
                p@,
                j + 1,
            ));
            if !ok {
                assert(segs_from(p@, 0)[done.len() as int] == p@.subrange(i as int, j as int));
            }
        }
        if !ok {
            return false;
        }
        proof {
            done = done.push(p@.subrange(i as int, j as int));
        }
        i = j + 1;
    }
}

/// Whether the segment `[lo, hi)` is a plain name.
fn seg_ok(v: &[char], lo: usize, hi: usize) -> (r: bool)
    requires
        lo <= hi <= v@.len(),
    ensures
        r == ({
            let s = v@.subrange(lo as int, hi as int);
            s.len() > 0 && s != seq!['.'] && s != seq!['.', '.']
        }),
{
    let len = hi - lo;
    let ghost s = v@.subrange(lo as int, hi as int);
    if len == 0 {
        return false;
    }
    if len == 1 && v[lo] == '.' {
        proof {
            assert(s =~= seq!['.']);
        }
        return false;
    }
    if len == 2 && v[lo] == '.' && v[lo + 1] == '.' {
        proof {
            assert(s =~= seq!['.', '.']);
        }
        return false;
    }
    proof {
        if s.len() == 1 {
            assert(s[0] == v@[lo as int]);
            assert(s != seq!['.']);
        }
        if s.len() == 2 {
            assert(s[0] == v@[lo as int] && s[1] == v@[lo as int + 1]);
            assert(s != seq!['.', '.']);
        }
    }
    true
}

impl Project {
    /// Every page path is well formed and every date valid.
    pub open spec fn wf(&self) -> bool {
        forall|k: int|
            0 <= k < self.pages@.len() ==> path_wf((#[trigger] self.pages@[k]).path@)
                && self.pages@[k].front_matter.wf()
    }

    /// The configuration the project was loaded with.
    pub fn config(&self) -> (r: &Config)
        ensures
            r == &self.config,
    {
        &self.config
    }

    /// The project's theme.
    pub fn theme(&self) -> (r: &Theme)
        ensures
            r == &self.theme,
    {
        &self.theme
    }

    /// The project's pages, in walk order.
    pub fn pages(&self) -> (r: &Vec<Page>)
        ensures
            r == &self.pages,
    {
        &self.pages
    }

    /// The directory the rendered site is written to.
    pub fn output_dir(&self) -> (r: String)
        ensures
            r@ == self.config.root_dir@ + "/"@ + "output"@,
    {
        self.config.output_dir()
    }

    /// Assemble a project from its loaded sources: each raw page text is
    /// parsed under its source-relative path, in the given order. Succeeds
    /// if and only if every path is a plain relative path and every page
    /// parses; the first offender aborts the assembly with a chain naming
    /// its file.
    pub fn assemble(config: Config, theme: Theme, raw_pages: Vec<(String, String)>) -> (r: Result<
        Project,
        Error,
    >)
        requires
            forall|k: int, l: int|
                0 <= k < l < raw_pages@.len() ==> (#[trigger] raw_pages@[k]).0@ != (
                #[trigger] raw_pages@[l]).0@,
        ensures
            match r {
                Ok(p) => {
                    &&& p.config == config
                    &&& p.theme == theme
                    &&& p.wf()
                    &&& p.pages@.len() == raw_pages@.len()
                    &&& forall|k: int|
                        0 <= k < raw_pages@.len() ==> page_from(
                            raw_pages@[k],
                            #[trigger] p.pages@[k],
                        )
                    &&& forall|k: int, l: int|
                        0 <= k < l < p.pages@.len() ==> (#[trigger] p.pages@[k]).path@ != (
                        #[trigger] p.pages@[l]).path@
                },
                Err(e) => exists|k: int|
                    #![trigger raw_pages@[k]]
                    {
                        &&& 0 <= k < raw_pages@.len()
                        &&& forall|m: int|
                            0 <= m < k ==> path_wf((#[trigger] raw_pages@[m]).0@) && parse_ok(
                                raw_pages@[m].1@,
                            )
                        &&& !(path_wf(raw_pages@[k].0@) && parse_ok(raw_pages@[k].1@))
                        &&& e@[0] == "failed to load page `"@ + (config.root_dir@ + "/"@ + "src"@
                            + "/"@ + raw_pages@[k].0@) + "`"@
                        &&& (!path_wf(raw_pages@[k].0@) ==> e@.len() == 2 && e@[1]
                            == "invalid page path"@)
                        &&& (path_wf(raw_pages@[k].0@) ==> e@.len() == 4 && e@[1]
                            == "failed to parse file contents"@ && e@[2]
                            == "failed to parse front matter"@)
                    },
            },
    {
        let src_dir = config.src_dir();
        let mut pages: Vec<Page> = Vec::new();
        let n = raw_pages.len();
        let mut i: usize = 0;
        while i < n
            invariant
                0 <= i <= n,
                n == raw_pages@.len(),
                src_dir@ == config.root_dir@ + "/"@ + "src"@,
                pages@.len() == i,
                forall|k: int|
                    0 <= k < i ==> page_from(raw_pages@[k], #[trigger] pages@[k]) && path_wf(
                        pages@[k].path@,
                    ) && pages@[k].front_matter.wf(),
                forall|m: int|
                    0 <= m < i ==> path_wf((#[trigger] raw_pages@[m]).0@) && parse_ok(
                        raw_pages@[m].1@,
                    ),
            decreases n - i,
        {
            let rel_path = raw_pages[i].0.clone();
            let full_path = crate::config::join_path(&src_dir, rel_path.as_str());
            if !path_is_wf(rel_path.as_str()) {
                let mut ctx = String::new();
                ctx.append("failed to load page `");
                ctx.append(full_path.as_str());
                ctx.append("`");
                proof {
                    assert(0 <= i < raw_pages@.len() && !path_wf(raw_pages@[i as int].0@));
                }
                return Err(Error::new("invalid page path".to_owned()).context(ctx));
            }
            match RawPage::from_str(raw_pages[i].1.as_str()) {
                Ok(rp) => {
                    let RawPage { front_matter, contents } = rp;
                    pages.push(Page { path: rel_path, front_matter, contents });
                },
                Err(e) => {
                    let mut ctx = String::new();
                    ctx.append("failed to load page `");
                    ctx.append(full_path.as_str());
                    ctx.append("`");
                    proof {
                        assert(0 <= i < raw_pages@.len() && !parse_ok(raw_pages@[i as int].1@));
                    }
                    return Err(
                        e.context("failed to parse file contents".to_owned()).context(ctx),
                    );
                },
            }
            i = i + 1;
        }
        Ok(Project { config, theme, pages })
    }

    /// The files each page's include directives reference, page by page in
    /// project order: what must be read before preprocessing, each path
    /// resolved against the directory holding its page.
    pub fn include_requests(&self) -> (r: Vec<Vec<String>>)
        ensures
            r@.len() == self.pages@.len(),
            forall|k: int|
                0 <= k < r@.len() ==> (#[trigger] r@[k])@.len() == spec_directives(
                    self.pages@[k].contents@,
                ).len(),
            forall|k: int, j: int|
                0 <= k < r@.len() && 0 <= j < r@[k]@.len() ==> ((#[trigger] r@[k]@[j]))@
                    == crate::preprocess::spec_resolved(
                    self.config.root_dir@ + "/"@ + "src"@,
                    self.pages@[k].path@,
                    spec_directives(self.pages@[k].contents@)[j].0,
                ),
    {
        let mut out: Vec<Vec<String>> = Vec::new();
        let mut i: usize = 0;
        while i < self.pages.len()
            invariant
                0 <= i <= self.pages@.len(),
                out@.len() == i,
                forall|k: int|
                    0 <= k < i ==> (#[trigger] out@[k])@.len() == spec_directives(
                        self.pages@[k].contents@,
                    ).len(),
                forall|k: int, j: int|
                    0 <= k < i && 0 <= j < out@[k]@.len() ==> ((#[trigger] out@[k]@[j]))@
                        == crate::preprocess::spec_resolved(
                        self.config.root_dir@ + "/"@ + "src"@,
                        self.pages@[k].path@,
                        spec_directives(self.pages@[k].contents@)[j].0,
                    ),
            decreases self.pages@.len() - i,
        {
            out.push(self.pages[i].include_paths(&self.config));
            i = i + 1;
        }
        out
    }

    /// Preprocess every page against the texts read for its directives,
    /// page by page in project order. The first failed read aborts with
    /// that page's error; otherwise every page's directives are replaced
    /// by their selected lines.
    pub fn preprocess(self, reads: &Vec<Vec<Result<String, String>>>) -> (r: Result<
        Project,
        Error,
    >)
        requires
            reads@.len() == self.pages@.len(),
            forall|k: int|
                0 <= k < reads@.len() ==> (#[trigger] reads@[k])@.len() == spec_directives(
                    self.pages@[k].contents@,
                ).len(),
            self.wf(),
        ensures
            match r {
                Ok(p) => {
                    &&& p.config == self.config
                    &&& p.theme == self.theme
                    &&& p.wf()
                    &&& p.pages@.len() == self.pages@.len()
                    &&& forall|k: int|
                        0 <= k < p.pages@.len() ==> {
                            let old_p = self.pages@[k];
                            let new_p = #[trigger] p.pages@[k];
                            &&& new_p.path == old_p.path
                            &&& new_p.front_matter == old_p.front_matter
                            &&& new_p.contents@ == spec_substitute(
                                old_p.contents@,
                                spec_directives(old_p.contents@),
                                spec_replacements(spec_directives(old_p.contents@), reads@[k]@),
                                0,
                            )
                        }
                },
                Err(e) => exists|k: int|
                    #![trigger self.pages@[k]]
                    {
                        &&& 0 <= k < reads@.len()
                        &&& exists|j: int| 0 <= j < reads@[k]@.len() && (#[trigger] reads@[k]@[j])
                            is Err
                        &&& e@.len() == 3
                        &&& e@[0] == "failed to preprocess page `"@ + self.pages@[k].path@ + "`"@
                    },
            },
    {
        let Project { config, theme, pages } = self;
        let mut pages = pages;
        let ghost pages_v = pages@;
        let mut out: Vec<Page> = Vec::new();
        let mut err: Option<Error> = None;
        let ghost mut err_page: int = 0;
        let n = pages.len();
        let mut i: usize = 0;
        while i < n && err.is_none()
            invariant
                match err {
                    Some(e) => {
                        &&& 0 <= err_page < reads@.len()
                        &&& exists|j: int|
                            0 <= j < reads@[err_page]@.len() && (#[trigger] reads@[err_page]@[j])
                                is Err
                        &&& e@.len() == 3
                        &&& e@[0] == "failed to preprocess page `"@ + pages_v[err_page].path@
                            + "`"@
                    },
                    None => true,
                },
                0 <= i <= n,
                n == pages_v.len(),
                pages@ =~= pages_v.skip(i as int),
                reads@.len() == pages_v.len(),
                forall|k: int|
                    0 <= k < reads@.len() ==> (#[trigger] reads@[k])@.len() == spec_directives(
                        pages_v[k].contents@,
                    ).len(),
                forall|k: int|
                    0 <= k < pages_v.len() ==> path_wf((#[trigger] pages_v[k]).path@) && pages_v[
                        k
                    ].front_matter.wf(),
                err is None ==> out@.len() == i,
                err is None ==> forall|k: int|
                    0 <= k < i ==> {
                        let old_p = pages_v[k];
                        let new_p = #[trigger] out@[k];
                        &&& new_p.path == old_p.path
                        &&& new_p.front_matter == old_p.front_matter
                        &&& new_p.contents@ == spec_substitute(
                            old_p.contents@,
                            spec_directives(old_p.contents@),
                            spec_replacements(spec_directives(old_p.contents@), reads@[k]@),
                            0,
                        )
                    },
            decreases n - i,
        {
            let page = pages.remove(0);
            proof {
                assert(page == pages_v[i as int]);
                assert(pages@ =~= pages_v.skip(i + 1 as int));
            }
            match page.preprocess(&config, &reads[i]) {
                Ok(p) => {
                    out.push(p);
                },
                Err(e) => {
                    err = Some(e);
                    proof {
                        err_page = i as int;
                    }
                },
            }
            i = i + 1;
        }
        if let Some(e) = err {
            proof {
                assert(pages_v[err_page] == self.pages@[err_page]);
            }
            return Err(e);
        }
        Ok(Project { config, theme, pages: out })
    }

    /// Render the project: every page, the site index, and the theme's
    /// stylesheets, as the theme lays them out.
    pub fn render(self) -> (r: Result<Output, Error>)
        requires
            self.wf(),
        ensures
            match r {
                Ok(out) => {
                    &&& out.config == self.config
                    &&& out.files@.len() == self.pages@.len() + 1 + self.theme.stylesheets@.len()
                    &&& forall|k: int|
                        0 <= k < self.pages@.len() ==> (#[trigger] out.files@[k]).path@
                            == crate::page::spec_url_path(self.pages@[k].path@)
                    &&& out.files@[self.pages@.len() as int].path@ == "index.html"@
                    &&& forall|j: int|
                        0 <= j < self.theme.stylesheets@.len() ==> {
                            let f = #[trigger] out.files@[self.pages@.len() + 1 + j];
                            f.path@ == self.theme.stylesheets@[j].path@ && f.contents@
                                == self.theme.stylesheets@[j].contents@
                        }
                },
                Err(e) => {
                    &&& e@.len() == 3
                    &&& e@[0] == "failed to render project"@
                    &&& (e@[1] == "failed to register templates"@ || e@[1]
                        == "failed to render project configuration"@ || e@[1]
                        == "failed to render page `index.html`"@ || exists|k: int|
                        #![trigger self.pages@[k]]
                        0 <= k < self.pages@.len() && (e@[1]
                            == "failed to generate render context for page `"@
                            + self.pages@[k].path@ + "`"@ || e@[1] == "failed to render page `"@
                            + self.pages@[k].path@ + "`"@))
                },
            },
    {
        let Project { config, theme, pages } = self;
        match theme.render(config, pages) {
            Ok(out) => Ok(out),
            Err(e) => Err(e.context("failed to render project".to_owned())),
        }
    }
}

} // verus!
