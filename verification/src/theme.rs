//! Themes and rendering: the resolved set of templates and stylesheets,
//! and the assembly of page and site contexts for the template engine.

use vstd::prelude::*;

use crate::config::Config;
use crate::error::Error;
use crate::front_matter::FrontMatter;
use crate::output::{File, Output};
use crate::page::{Page, path_wf, spec_url_path};
use crate::toml_data::TomlLeaf;

verus! {

/// The built-in base template.
pub const DEFAULT_BASE: &'static str = "<!DOCTYPE html>\n<html>\n<head>\n<meta charset=\"utf-8\">\n<title>{% block title %}{% if config.project.title %}{{ config.project.title }}{% endif %}{% endblock title %}</title>\n<link rel=\"stylesheet\" href=\"{{ path_to_root }}css/custom.css\">\n</head>\n<body>\n{% block content %}{% endblock content %}\n</body>\n</html>\n";

/// The built-in index template.
pub const DEFAULT_INDEX: &'static str = "{% extends \"base.html\" %}\n{% block content %}\n<ul>\n{% for page in pages %}\n<li><a href=\"{{ page.path }}\">{% if page.meta.title %}{{ page.meta.title }}{% else %}{{ page.path }}{% endif %}</a></li>\n{% endfor %}\n</ul>\n{% endblock content %}\n";

/// The built-in page template.
pub const DEFAULT_PAGE: &'static str = "{% extends \"base.html\" %}\n{% block content %}\n{{ this.content | safe }}\n{% endblock content %}\n";

/// The built-in stylesheet.
pub const DEFAULT_CSS: &'static str = "body {\n  margin: 2em auto;\n  max-width: 48em;\n  font-family: sans-serif;\n  line-height: 1.5;\n}\npre {\n  background: #f4f4f4;\n  padding: 1em;\n  overflow-x: auto;\n}\n";

/// An HTML template to use for rendering.
#[derive(Debug, PartialEq)]
pub struct Template {
    /// The name of the template.
    pub name: String,
    /// The template contents.
    pub contents: String,
}

/// A CSS stylesheet to write out.
#[derive(Debug, PartialEq)]
pub struct Stylesheet {
    /// The stylesheet path relative to the theme directory.
    pub path: String,
    /// The stylesheet contents.
    pub contents: String,
}

/// The theme to use for rendering: one entry per well-known template and
/// stylesheet, an override from the theme directory or the built-in text.
#[derive(Debug, PartialEq)]
pub struct Theme {
    /// Each of the theme's templates.
    pub templates: Vec<Template>,
    /// Each of the theme's stylesheets.
    pub stylesheets: Vec<Stylesheet>,
}

/// What a theme directory held at the well-known file paths: the contents
/// of each file that exists.
#[derive(Debug, PartialEq)]
pub struct ThemeDir {
    /// Contents of `templates/base.html`, when present.
    pub base: Option<String>,
    /// Contents of `templates/index.html`, when present.
    pub index: Option<String>,
    /// Contents of `templates/page.html`, when present.
    pub page: Option<String>,
    /// Contents of `css/custom.css`, when present.
    pub custom_css: Option<String>,
}

impl ThemeDir {
    /// A directory with no overrides.
    pub fn empty() -> (r: ThemeDir)
        ensures
            r.base is None && r.index is None && r.page is None && r.custom_css is None,
    {
        ThemeDir { base: None, index: None, page: None, custom_css: None }
    }

    /// The well-known file paths, relative to the theme directory, in the
    /// order the fields are read.
    pub fn well_known_paths() -> (r: Vec<String>)
        ensures
            r@.len() == 4,
            r@[0]@ == "templates/base.html"@,
            r@[1]@ == "templates/index.html"@,
            r@[2]@ == "templates/page.html"@,
            r@[3]@ == "css/custom.css"@,
    {
        let mut out: Vec<String> = Vec::new();
        out.push("templates/base.html".to_owned());
        out.push("templates/index.html".to_owned());
        out.push("templates/page.html".to_owned());
        out.push("css/custom.css".to_owned());
        out
    }
}

/// The text a template resolves to: the override when one exists, the
/// built-in default otherwise.
pub open spec fn resolved(over: Option<String>, default: Seq<char>) -> Seq<char> {
    match over {
        Some(s) => s@,
        None => default,
    }
}

impl Theme {
    /// Resolve the theme from what its directory held: each well-known
    /// template and stylesheet is the directory's override when present,
    /// the built-in default otherwise, in the fixed well-known order.
    pub fn from_path(dir: ThemeDir) -> (r: Theme)
        ensures
            r.templates@.len() == 3,
            r.templates@[0].name@ == "base.html"@,
            r.templates@[0].contents@ == resolved(dir.base, DEFAULT_BASE@),
            r.templates@[1].name@ == "index.html"@,
            r.templates@[1].contents@ == resolved(dir.index, DEFAULT_INDEX@),
            r.templates@[2].name@ == "page.html"@,
            r.templates@[2].contents@ == resolved(dir.page, DEFAULT_PAGE@),
            r.stylesheets@.len() == 1,
            r.stylesheets@[0].path@ == "css/custom.css"@,
            r.stylesheets@[0].contents@ == resolved(dir.custom_css, DEFAULT_CSS@),
    {
        let ThemeDir { base, index, page, custom_css } = dir;
        let mut templates: Vec<Template> = Vec::new();
        templates.push(
            Template {
                name: "base.html".to_owned(),
                contents: match base {
                    Some(s) => s,
                    None => DEFAULT_BASE.to_owned(),
                },
            },
        );
        templates.push(
            Template {
                name: "index.html".to_owned(),
                contents: match index {
                    Some(s) => s,
                    None => DEFAULT_INDEX.to_owned(),
                },
            },
        );
        templates.push(
            Template {
                name: "page.html".to_owned(),
                contents: match page {
                    Some(s) => s,
                    None => DEFAULT_PAGE.to_owned(),
                },
            },
        );
        let mut stylesheets: Vec<Stylesheet> = Vec::new();
        stylesheets.push(
            Stylesheet {
                path: "css/custom.css".to_owned(),
                contents: match custom_css {
                    Some(s) => s,
                    None => DEFAULT_CSS.to_owned(),
                },
            },
        );
        Theme { templates, stylesheets }
    }

    /// The templates as name and contents pairs, in theme order.
    pub fn raw_templates(&self) -> (r: Vec<(String, String)>)
        ensures
            r@.len() == self.templates@.len(),
            forall|k: int|
                0 <= k < r@.len() ==> (#[trigger] r@[k]).0@ == self.templates@[k].name@ && r@[
                    k
                ].1@ == self.templates@[k].contents@,
    {
        let mut out: Vec<(String, String)> = Vec::new();
        let mut i: usize = 0;
        while i < self.templates.len()
            invariant
                0 <= i <= self.templates@.len(),
                out@.len() == i,
                forall|k: int|
                    0 <= k < i ==> (#[trigger] out@[k]).0@ == self.templates@[k].name@ && out@[
                        k
                    ].1@ == self.templates@[k].contents@,
            decreases self.templates@.len() - i,
        {
            out.push((self.templates[i].name.clone(), self.templates[i].contents.clone()));
            i = i + 1;
        }
        out
    }

    /// Render the whole project: one HTML file per page, in project order,
    /// then the site index, then every stylesheet verbatim.
    ///
    /// The output lists each page's file under its derived URL, then
    /// `index.html`, then the stylesheets at their theme-relative paths
    /// with their contents untouched. A template-engine failure aborts with
    /// a chain naming the page, `index.html`, or the template registration.
    pub fn render(self, config: Config, pages: Vec<Page>) -> (r: Result<Output, Error>)
        requires
            forall|k: int|
                0 <= k < pages@.len() ==> path_wf((#[trigger] pages@[k]).path@) && pages@[
                    k
                ].front_matter.wf(),
        ensures
            match r {
                Ok(out) => {
                    &&& out.config == config
                    &&& out.files@.len() == pages@.len() + 1 + self.stylesheets@.len()
                    &&& forall|k: int|
                        0 <= k < pages@.len() ==> (#[trigger] out.files@[k]).path@
                            == spec_url_path(pages@[k].path@)
                    &&& out.files@[pages@.len() as int].path@ == "index.html"@
                    &&& forall|j: int|
                        0 <= j < self.stylesheets@.len() ==> {
                            let f = #[trigger] out.files@[pages@.len() + 1 + j];
                            f.path@ == self.stylesheets@[j].path@ && f.contents@
                                == self.stylesheets@[j].contents@
                        }
                },
                Err(e) => {
                    &&& e@.len() == 2
                    &&& (e@[0] == "failed to register templates"@ || e@[0]
                        == "failed to render project configuration"@ || e@[0]
                        == "failed to render page `index.html`"@ || exists|k: int|
                        #![trigger pages@[k]]
                        0 <= k < pages@.len() && (e@[0]
                            == "failed to generate render context for page `"@ + pages@[k].path@
                            + "`"@ || e@[0] == "failed to render page `"@ + pages@[k].path@
                            + "`"@))
                },
            },
    {
        let raw = self.raw_templates();
        let engine = match tera_engine(&raw) {
            Ok(t) => t,
            Err(msg) => {
                return Err(
                    Error::new(msg).context("failed to register templates".to_owned()),
                );
            },
        };
        let config_value = match config_context_value(&config) {
            Ok(v) => v,
            Err(msg) => {
                return Err(
                    Error::new(msg).context("failed to render project configuration".to_owned()),
                );
            },
        };
        let mut output = Output::new(config);
        let mut pages_ctx: Vec<tera::Value> = Vec::new();
        let mut i: usize = 0;
        let n = pages.len();
        while i < n
            invariant
                0 <= i <= n,
                n == pages@.len(),
                forall|k: int|
                    0 <= k < pages@.len() ==> path_wf((#[trigger] pages@[k]).path@) && pages@[
                        k
                    ].front_matter.wf(),
                output.files@.len() == i,
                forall|k: int|
                    0 <= k < i ==> (#[trigger] output.files@[k]).path@ == spec_url_path(
                        pages@[k].path@,
                    ),
                output.config == config,
            decreases n - i,
        {
            let page = &pages[i];
            let url = page.url_path();
            let to_root = page.url_path_to_root();
            let this_ctx = match page_context(page, &url) {
                Ok(v) => v,
                Err(msg) => {
                    let mut ctx = String::new();
                    ctx.append("failed to generate render context for page `");
                    ctx.append(page.path.as_str());
                    ctx.append("`");
                    return Err(Error::new(msg).context(ctx));
                },
            };
            let mut page_ctx = ctx_new();
            ctx_insert(&mut page_ctx, "config", tv_clone(&config_value));
            ctx_insert(&mut page_ctx, "path_to_root", tv_str(to_root.as_str()));
            ctx_insert(&mut page_ctx, "this", tv_clone(&this_ctx));
            pages_ctx.push(this_ctx);
            let rendered = match tera_render(&engine, "page.html", &page_ctx) {
                Ok(s) => s,
                Err(msg) => {
                    let mut ctx = String::new();
                    ctx.append("failed to render page `");
                    ctx.append(page.path.as_str());
                    ctx.append("`");
                    return Err(Error::new(msg).context(ctx));
                },
            };
            output.push_file(File::new(url, rendered));
            i = i + 1;
        }
        let mut base_ctx = ctx_new();
        ctx_insert(&mut base_ctx, "config", config_value);
        ctx_insert(&mut base_ctx, "path_to_root", tv_str(""));
        ctx_insert(&mut base_ctx, "pages", tv_array(pages_ctx));
        let rendered = match tera_render(&engine, "index.html", &base_ctx) {
            Ok(s) => s,
            Err(msg) => {
                return Err(
                    Error::new(msg).context("failed to render page `index.html`".to_owned()),
                );
            },
        };
        output.push_file(File::new("index.html".to_owned(), rendered));
        let mut sheets = self.stylesheets;
        let ghost sheets_v = sheets@;
        let mut j: usize = 0;
        let m = sheets.len();
        while j < m
            invariant
                0 <= j <= m,
                m == sheets_v.len(),
                sheets@ =~= sheets_v.skip(j as int),
                output.files@.len() == pages@.len() + 1 + j,
                output.config == config,
                forall|k: int|
                    0 <= k < pages@.len() ==> (#[trigger] output.files@[k]).path@
                        == spec_url_path(pages@[k].path@),
                output.files@[pages@.len() as int].path@ == "index.html"@,
                forall|k: int|
                    0 <= k < j ==> {
                        let f = #[trigger] output.files@[pages@.len() + 1 + k];
                        f.path@ == sheets_v[k].path@ && f.contents@ == sheets_v[k].contents@
                    },
            decreases m - j,
        {
            let sheet = sheets.remove(0);
            proof {
                assert(sheet == sheets_v[j as int]);
                assert(sheets@ =~= sheets_v.skip(j + 1 as int));
            }
            output.push_file(File::new(sheet.path, sheet.contents));
            j = j + 1;
        }
        Ok(output)
    }
}

/// The template engine, carried through this library opaquely.
#[verifier::external_type_specification]
#[verifier::external_body]
pub struct ExTera(tera::Tera);

/// The template engine's rendering context, carried through opaquely.
#[verifier::external_type_specification]
#[verifier::external_body]
pub struct ExTeraContext(tera::Context);

/// The template engine's value type, carried through opaquely.
#[verifier::external_type_specification]
#[verifier::external_body]
pub struct ExTeraValue(tera::Value);

/// Relies on `tera::Tera::new` and `Tera::add_raw_templates`: an engine
/// holding exactly the given templates under their names; the error text is
/// the engine's own message.
#[verifier::external_body]
pub(crate) fn tera_engine(templates: &Vec<(String, String)>) -> Result<tera::Tera, String> {
    let mut engine = tera::Tera::new();
    match engine.add_raw_templates(templates.iter().map(|(n, c)| (n.as_str(), c.as_str()))) {
        Ok(()) => Ok(engine),
        Err(e) => Err(format!("{}", e)),
    }
}

/// Relies on `tera::Tera::render`: the named template rendered against the
/// context; the error text is the engine's own message.
#[verifier::external_body]
pub(crate) fn tera_render(engine: &tera::Tera, name: &str, ctx: &tera::Context) -> Result<
    String,
    String,
> {
    match engine.render(name, ctx) {
        Ok(s) => Ok(s),
        Err(e) => Err(format!("{}", e)),
    }
}

/// What the engine's context holds: a map from names to engine values.
/// `tera::Context` is the outside crate's collection, so its contents carry
/// a name that the wrappers below speak over.
pub uninterp spec fn ctx_entries(c: tera::Context) -> Map<Seq<char>, tera::Value>;

/// The engine's value for a text: a pure function of the text.
pub uninterp spec fn tera_str_of(s: Seq<char>) -> tera::Value;

/// The engine's value for an optional text: the text's value, or the
/// engine's null. A pure function of the optional text.
pub uninterp spec fn tera_opt_str_of(v: Option<Seq<char>>) -> tera::Value;

/// The engine's array value over the given items: a pure function of them.
pub uninterp spec fn tera_array_of(items: Seq<tera::Value>) -> tera::Value;

/// The engine's map value over the given entries: a pure function of them.
pub uninterp spec fn tera_map_of(entries: Seq<(Seq<char>, tera::Value)>) -> tera::Value;

/// The engine's form of a preserved metadata value, or the serialization
/// error's message: a pure function of the value.
pub uninterp spec fn tera_of_leaf_of(l: TomlLeaf) -> Result<tera::Value, Seq<char>>;

/// Relies on `tera::Context::new`: an empty context.
#[verifier::external_body]
pub(crate) fn ctx_new() -> (r: tera::Context)
    ensures
        ctx_entries(r) =~= Map::empty(),
{
    tera::Context::new()
}

/// Relies on `tera::Context::insert_value`: binds the name to the value,
/// replacing any earlier binding.
#[verifier::external_body]
pub(crate) fn ctx_insert(ctx: &mut tera::Context, key: &str, val: tera::Value)
    ensures
        ctx_entries(*final (ctx)) == ctx_entries(*old(ctx)).insert(key@, val),
{
    ctx.insert_value(key.to_owned(), val);
}

/// Relies on `tera::Value::from` for strings.
#[verifier::external_body]
pub(crate) fn tv_str(s: &str) -> (r: tera::Value)
    ensures
        r == tera_str_of(s@),
{
    tera::Value::from(s)
}

/// Relies on `tera::Value::from` for strings and `tera::Value::none`.
#[verifier::external_body]
pub(crate) fn tv_opt_str(o: Option<&String>) -> (r: tera::Value)
    ensures
        r == tera_opt_str_of(
            match o {
                Some(s) => Some(s@),
                None => None,
            },
        ),
{
    match o {
        Some(s) => tera::Value::from(s.as_str()),
        None => tera::Value::none(),
    }
}

/// Relies on `tera::Value::from` for arrays.
#[verifier::external_body]
pub(crate) fn tv_array(items: Vec<tera::Value>) -> (r: tera::Value)
    ensures
        r == tera_array_of(items@),
{
    tera::Value::from(items)
}

/// Relies on `tera::Value::from` for maps.
#[verifier::external_body]
pub(crate) fn tv_map(entries: Vec<(String, tera::Value)>) -> (r: tera::Value)
    ensures
        r == tera_map_of(pair_views(entries@)),
{
    let map: std::collections::HashMap<tera::value::Key<'static>, tera::Value> =
        entries.into_iter().map(|(k, v)| (tera::value::Key::from(k), v)).collect();
    tera::Value::from(map)
}

/// Relies on `Clone` for `tera::Value`: the copy is the same value.
#[verifier::external_body]
pub(crate) fn tv_clone(v: &tera::Value) -> (r: tera::Value)
    ensures
        r == *v,
{
    v.clone()
}

/// Relies on `tera::Value::try_from_serializable` on a TOML value: the
/// engine's form of a preserved metadata value; the error text is the
/// engine's own message.
#[verifier::external_body]
pub(crate) fn tv_of_leaf(l: &TomlLeaf) -> (r: Result<tera::Value, String>)
    ensures
        match r {
            Ok(v) => tera_of_leaf_of(*l) == Ok::<tera::Value, Seq<char>>(v),
            Err(m) => tera_of_leaf_of(*l) == Err::<tera::Value, Seq<char>>(m@),
        },
{
    match l {
        TomlLeaf::Text(s) => Ok(tera::Value::from(s.as_str())),
        TomlLeaf::Other(v) => match tera::Value::try_from_serializable(v) {
            Ok(tv) => Ok(tv),
            Err(e) => Err(format!("{}", e)),
        },
    }
}

/// The entry views of engine-value pairs.
pub open spec fn pair_views(es: Seq<(String, tera::Value)>) -> Seq<(Seq<char>, tera::Value)> {
    es.map_values(|e: (String, tera::Value)| (e.0@, e.1))
}

/// The `meta` entries of a page, as the template engine sees them: each
/// recognized field under its name, its text or the engine's null, then
/// every preserved entry in order.
pub open spec fn spec_meta_entries(fm: FrontMatter) -> Seq<(Seq<char>, tera::Value)> {
    seq![
        ("title"@, tera_opt_str_of(crate::front_matter::opt_str_view(fm.title))),
        (
            "description"@,
            tera_opt_str_of(crate::front_matter::opt_str_view(fm.description)),
        ),
        (
            "date"@,
            tera_opt_str_of(
                match fm.date {
                    Some(d) => Some(d.spec_format()),
                    None => None,
                },
            ),
        ),
        ("kind"@, tera_opt_str_of(crate::front_matter::opt_str_view(fm.kind))),
    ] + Seq::new(
        fm.rest@.len() as nat,
        |k: int| (fm.rest@[k].0@, tera_of_leaf_of(fm.rest@[k].1)->Ok_0),
    )
}

/// The `meta` context of a page: its recognized fields and every further
/// metadata entry, failing exactly where the engine refuses a preserved
/// value.
fn meta_context(fm: &FrontMatter) -> (r: Result<tera::Value, String>)
    requires
        fm.wf(),
    ensures
        match r {
            Ok(v) => v == tera_map_of(spec_meta_entries(*fm)) && forall|k: int|
                0 <= k < fm.rest@.len() ==> tera_of_leaf_of((#[trigger] fm.rest@[k]).1) is Ok,
            Err(m) => exists|k: int|
                0 <= k < fm.rest@.len() && tera_of_leaf_of((#[trigger] fm.rest@[k]).1)
                    == Err::<tera::Value, Seq<char>>(m@),
        },
{
    let mut entries: Vec<(String, tera::Value)> = Vec::new();
    entries.push(("title".to_owned(), tv_opt_str(fm.title.as_ref())));
    entries.push(("description".to_owned(), tv_opt_str(fm.description.as_ref())));
    match &fm.date {
        Some(d) => {
            let text = d.format();
            entries.push(("date".to_owned(), tv_opt_str(Some(&text))));
        },
        None => entries.push(("date".to_owned(), tv_opt_str(None))),
    }
    entries.push(("kind".to_owned(), tv_opt_str(fm.kind.as_ref())));
    let ghost head = pair_views(entries@);
    let mut i: usize = 0;
    while i < fm.rest.len()
        invariant
            0 <= i <= fm.rest@.len(),
            entries@.len() == 4 + i,
            pair_views(entries@) =~= head + Seq::new(
                i as nat,
                |k: int| (fm.rest@[k].0@, tera_of_leaf_of(fm.rest@[k].1)->Ok_0),
            ),
            forall|k: int|
                0 <= k < i ==> tera_of_leaf_of((#[trigger] fm.rest@[k]).1) is Ok,
        decreases fm.rest@.len() - i,
    {
        let leaf_value = match tv_of_leaf(&fm.rest[i].1) {
            Ok(v) => v,
            Err(msg) => {
                return Err(msg);
            },
        };
        let ghost prev = entries@;
        entries.push((fm.rest[i].0.clone(), leaf_value));
        proof {
            assert(entries@.drop_last() =~= prev);
            assert(pair_views(entries@) =~= pair_views(prev).push(
                (entries@.last().0@, entries@.last().1),
            ));
            assert(entries@.last().1 == leaf_value);
            assert(entries@.last().0@ == fm.rest@[i as int].0@);
            assert(tera_of_leaf_of(fm.rest@[i as int].1)->Ok_0 == leaf_value);
            assert(pair_views(entries@) =~= head + Seq::new(
                (i + 1) as nat,
                |k: int| (fm.rest@[k].0@, tera_of_leaf_of(fm.rest@[k].1)->Ok_0),
            ));
        }
        i = i + 1;
    }
    proof {
        assert(pair_views(entries@) =~= spec_meta_entries(*fm));
    }
    Ok(tv_map(entries))
}

/// The per-page rendering context, as the template engine sees it: the
/// page's metadata under `meta`, its URL under `path`, and its contents
/// converted to HTML under `content`.
pub open spec fn spec_page_context(page: Page, url: Seq<char>) -> tera::Value {
    tera_map_of(
        seq![
            ("meta"@, tera_map_of(spec_meta_entries(page.front_matter))),
            ("path"@, tera_str_of(url)),
            ("content"@, tera_str_of(crate::renderer::html_of(page.contents@))),
        ],
    )
}

/// The rendering context of one page: its metadata, its URL, and its
/// contents converted to HTML, failing exactly where the engine refuses a
/// preserved metadata value.
fn page_context(page: &Page, url: &String) -> (r: Result<tera::Value, String>)
    requires
        page.front_matter.wf(),
    ensures
        match r {
            Ok(v) => v == spec_page_context(*page, url@) && forall|k: int|
                0 <= k < page.front_matter.rest@.len() ==> tera_of_leaf_of(
                    (#[trigger] page.front_matter.rest@[k]).1,
                ) is Ok,
            Err(m) => exists|k: int|
                0 <= k < page.front_matter.rest@.len() && tera_of_leaf_of(
                    (#[trigger] page.front_matter.rest@[k]).1,
                ) == Err::<tera::Value, Seq<char>>(m@),
        },
{
    let meta = match meta_context(&page.front_matter) {
        Ok(v) => v,
        Err(msg) => {
            return Err(msg);
        },
    };
    let html = crate::renderer::Renderer::new(page.contents.as_str()).render();
    let mut entries: Vec<(String, tera::Value)> = Vec::new();
    entries.push(("meta".to_owned(), meta));
    entries.push(("path".to_owned(), tv_str(url.as_str())));
    entries.push(("content".to_owned(), tv_str(html.as_str())));
    proof {
        assert(pair_views(entries@) =~= seq![
            ("meta"@, tera_map_of(spec_meta_entries(page.front_matter))),
            ("path"@, tera_str_of(url@)),
            ("content"@, tera_str_of(crate::renderer::html_of(page.contents@))),
        ]);
    }
    Ok(tv_map(entries))
}

/// The `config` entries as the template engine sees them: the `project`
/// section with its title and authors, then every preserved setting in
/// order.
pub open spec fn spec_config_entries(rc: crate::config::RawConfig) -> Seq<
    (Seq<char>, tera::Value),
> {
    seq![
        (
            "project"@,
            tera_map_of(
                seq![
                    ("title"@, tera_opt_str_of(crate::config::opt_view(rc.project.title))),
                    (
                        "authors"@,
                        match rc.project.authors {
                            Some(a) => tera_array_of(
                                Seq::new(a@.len() as nat, |k: int| tera_str_of(a@[k]@)),
                            ),
                            None => tera_opt_str_of(None),
                        },
                    ),
                ],
            ),
        ),
    ] + Seq::new(
        rc.rest@.len() as nat,
        |k: int| (rc.rest@[k].0@, tera_of_leaf_of(rc.rest@[k].1)->Ok_0),
    )
}

/// The `config` context: the `project` section and every further setting,
/// failing exactly where the engine refuses a preserved value.
fn config_context_value(config: &Config) -> (r: Result<tera::Value, String>)
    ensures
        match r {
            Ok(v) => v == tera_map_of(spec_config_entries(config.inner)) && forall|k: int|
                0 <= k < config.inner.rest@.len() ==> tera_of_leaf_of(
                    (#[trigger] config.inner.rest@[k]).1,
                ) is Ok,
            Err(m) => exists|k: int|
                0 <= k < config.inner.rest@.len() && tera_of_leaf_of(
                    (#[trigger] config.inner.rest@[k]).1,
                ) == Err::<tera::Value, Seq<char>>(m@),
        },
{
    let mut project: Vec<(String, tera::Value)> = Vec::new();
    project.push(("title".to_owned(), tv_opt_str(config.inner.project.title.as_ref())));
    match &config.inner.project.authors {
        Some(authors) => {
            let mut items: Vec<tera::Value> = Vec::new();
            let mut i: usize = 0;
            while i < authors.len()
                invariant
                    0 <= i <= authors@.len(),
                    items@ =~= Seq::new(i as nat, |k: int| tera_str_of(authors@[k]@)),
                decreases authors@.len() - i,
            {
                items.push(tv_str(authors[i].as_str()));
                proof {
                    assert(items@ =~= Seq::new(
                        (i + 1) as nat,
                        |k: int| tera_str_of(authors@[k]@),
                    ));
                }
                i = i + 1;
            }
            project.push(("authors".to_owned(), tv_array(items)));
        },
        None => project.push(("authors".to_owned(), tv_opt_str(None))),
    }
    let project_value = tv_map(project);
    proof {
        assert(pair_views(project@) =~= seq![
            ("title"@, tera_opt_str_of(crate::config::opt_view(config.inner.project.title))),
            (
                "authors"@,
                match config.inner.project.authors {
                    Some(a) => tera_array_of(
                        Seq::new(a@.len() as nat, |k: int| tera_str_of(a@[k]@)),
                    ),
                    None => tera_opt_str_of(None),
                },
            ),
        ]);
    }
    let mut entries: Vec<(String, tera::Value)> = Vec::new();
    entries.push(("project".to_owned(), project_value));
    let ghost head = pair_views(entries@);
    let mut i: usize = 0;
    while i < config.inner.rest.len()
        invariant
            0 <= i <= config.inner.rest@.len(),
            entries@.len() == 1 + i,
            pair_views(entries@) =~= head + Seq::new(
                i as nat,
                |k: int| (config.inner.rest@[k].0@, tera_of_leaf_of(config.inner.rest@[k].1)->Ok_0),
            ),
            forall|k: int|
                0 <= k < i ==> tera_of_leaf_of((#[trigger] config.inner.rest@[k]).1) is Ok,
        decreases config.inner.rest@.len() - i,
    {
        let leaf_value = match tv_of_leaf(&config.inner.rest[i].1) {
            Ok(v) => v,
            Err(msg) => {
                return Err(msg);
            },
        };
        let ghost prev = entries@;
        entries.push((config.inner.rest[i].0.clone(), leaf_value));
        proof {
            assert(entries@.drop_last() =~= prev);
            assert(pair_views(entries@) =~= pair_views(prev).push(
                (entries@.last().0@, entries@.last().1),
            ));
            assert(entries@.last().1 == leaf_value);
            assert(entries@.last().0@ == config.inner.rest@[i as int].0@);
            assert(tera_of_leaf_of(config.inner.rest@[i as int].1)->Ok_0 == leaf_value);
            assert(pair_views(entries@) =~= head + Seq::new(
                (i + 1) as nat,
                |k: int| (config.inner.rest@[k].0@, tera_of_leaf_of(
                    config.inner.rest@[k].1,
                )->Ok_0),
            ));
        }
        i = i + 1;
    }
    proof {
        assert(pair_views(entries@) =~= spec_config_entries(config.inner));
    }
    Ok(tv_map(entries))
}

} // verus!
