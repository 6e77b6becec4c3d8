//! Configuration for a project: the `project` section with title and
//! authors, plus any further settings preserved for the renderer.

use vstd::prelude::*;

use crate::error::Error;
use crate::front_matter::{leaf_text, str_field_of, str_field_ok};
use crate::toml_data::{TomlLeaf, key_index, parse_toml_entries, toml_entries_of, toml_text_of};

verus! {

/// Project specific configuration.
#[derive(Debug, PartialEq)]
pub struct ProjectConfig {
    /// The title of the project.
    pub title: Option<String>,
    /// The project's authors.
    pub authors: Option<Vec<String>>,
}

/// The configuration file's contents: the `project` section plus the rest
/// of the table, preserved untouched.
#[derive(Debug, PartialEq)]
pub struct RawConfig {
    /// Project specific configuration.
    pub project: ProjectConfig,
    /// The rest of the configuration table.
    pub rest: Vec<(String, TomlLeaf)>,
}

/// The overall configuration for a project: where it lives and what its
/// configuration file said.
#[derive(Debug, PartialEq)]
pub struct Config {
    /// The project's root directory.
    pub root_dir: String,
    /// The configuration as represented on disk.
    pub inner: RawConfig,
}

/// What decomposing a value as a table yields: its entries in key order,
/// or nothing when the value is not a table. A pure function of the value,
/// so its outcome carries a name.
pub uninterp spec fn leaf_table_of(l: TomlLeaf) -> Option<Seq<(String, TomlLeaf)>>;

/// What reading a value as a list of strings yields: the texts in order,
/// or nothing when the value is not an all-string array. A pure function of
/// the value, so its outcome carries a name.
pub uninterp spec fn leaf_texts_of(l: TomlLeaf) -> Option<Seq<Seq<char>>>;

/// The one `project` table value built from a title and an author list: a
/// pure function of the texts, so it carries a name.
pub uninterp spec fn project_leaf_of(
    title: Option<Seq<char>>,
    authors: Option<Seq<Seq<char>>>,
) -> TomlLeaf;

/// Relies on `toml::Value::as_table`: the entries of a table value, in the
/// table's key order, string values unwrapped to their text; nothing when
/// the value is not a table.
#[verifier::external_body]
pub(crate) fn leaf_table_entries(l: &TomlLeaf) -> (r: Option<Vec<(String, TomlLeaf)>>)
    ensures
        match r {
            Some(es) => leaf_table_of(*l) == Some(es@),
            None => leaf_table_of(*l) is None,
        },
{
    match l {
        TomlLeaf::Other(toml::Value::Table(t)) => Some(t.iter().map(|(k, v)| match v {
            toml::Value::String(text) => (k.clone(), TomlLeaf::Text(text.clone())),
            other => (k.clone(), TomlLeaf::Other(other.clone())),
        }).collect()),
        _ => None,
    }
}

/// Relies on `toml::Value::as_array` and `as_str`: the texts of an array
/// value whose elements are all strings; nothing otherwise.
#[verifier::external_body]
pub(crate) fn leaf_str_list(l: &TomlLeaf) -> (r: Option<Vec<String>>)
    ensures
        match r {
            Some(list) => leaf_texts_of(*l) == Some(list@.map_values(|t: String| t@)),
            None => leaf_texts_of(*l) is None,
        },
{
    match l {
        TomlLeaf::Other(toml::Value::Array(a)) => {
            let mut out: Vec<String> = Vec::with_capacity(a.len());
            for v in a {
                out.push(v.as_str()?.to_owned());
            }
            Some(out)
        },
        _ => None,
    }
}

/// Relies on `toml::Value::String` and the TOML table type: one `project`
/// table value with an optional string `title` and string-array `authors`,
/// built from the texts alone. Reading the value back as a table gives the
/// inserted entries — the table stores what `insert` put there, a string
/// `title` leaf and an all-string `authors` array — so decomposing it
/// recovers the given texts.
#[verifier::external_body]
pub(crate) fn project_table_leaf(title: &Option<String>, authors: &Option<Vec<String>>) -> (r:
    TomlLeaf)
    ensures
        r == project_leaf_of(
            opt_view(*title),
            match authors {
                Some(a) => Some(a@.map_values(|t: String| t@)),
                None => None::<Seq<Seq<char>>>,
            },
        ),
        leaf_table_of(r) is Some,
        match opt_view(*title) {
            Some(t) => key_index(leaf_table_of(r)->0, "title"@) is Some && leaf_text(
                leaf_table_of(r)->0[key_index(leaf_table_of(r)->0, "title"@)->0].1,
            ) is Some && leaf_text(
                leaf_table_of(r)->0[key_index(leaf_table_of(r)->0, "title"@)->0].1,
            )->0@ == t,
            None => key_index(leaf_table_of(r)->0, "title"@) is None,
        },
        match *authors {
            Some(a) => key_index(leaf_table_of(r)->0, "authors"@) is Some && leaf_texts_of(
                leaf_table_of(r)->0[key_index(leaf_table_of(r)->0, "authors"@)->0].1,
            ) == Some(a@.map_values(|t: String| t@)),
            None => key_index(leaf_table_of(r)->0, "authors"@) is None,
        },
{
    let mut t = toml::Table::new();
    if let Some(title) = title {
        t.insert("title".to_owned(), toml::Value::String(title.clone()));
    }
    if let Some(authors) = authors {
        let list = authors.iter().map(|a| toml::Value::String(a.clone())).collect();
        t.insert("authors".to_owned(), toml::Value::Array(list));
    }
    TomlLeaf::Other(toml::Value::Table(t))
}

/// What a project section denotes of its table entries: the title text of
/// the first `title` entry, the author texts of the first `authors` entry,
/// nothing where the key is absent.
pub open spec fn pc_matches_entries(pc: ProjectConfig, es: Seq<(String, TomlLeaf)>) -> bool {
    &&& match key_index(es, "title"@) {
        Some(j) => leaf_text(es[j].1) is Some && opt_view(pc.title) == opt_view(
            leaf_text(es[j].1),
        ),
        None => pc.title is None,
    }
    &&& match key_index(es, "authors"@) {
        Some(j) => leaf_texts_of(es[j].1) is Some && pc.authors is Some && pc.authors->0@
            .map_values(|t: String| t@) == leaf_texts_of(es[j].1)->0,
        None => pc.authors is None,
    }
}

/// A readable project section: a present `title` is a string and present
/// `authors` are a list of strings.
pub open spec fn pc_entries_ok(es: Seq<(String, TomlLeaf)>) -> bool {
    &&& str_field_ok(es, "title"@)
    &&& match key_index(es, "authors"@) {
        Some(j) => leaf_texts_of(es[j].1) is Some,
        None => true,
    }
}

impl ProjectConfig {
    pub open spec fn is_default(&self) -> bool {
        self.title is None && self.authors is None
    }

    /// Interpret the entries of a `project` table: `title` must be a
    /// string, `authors` a list of strings; unrecognized keys are ignored.
    /// Fails if and only if a recognized key's first entry is ill typed.
    pub fn from_entries(entries: &Vec<(String, TomlLeaf)>) -> (r: Result<ProjectConfig, Error>)
        ensures
            match r {
                Ok(pc) => pc_matches_entries(pc, entries@) && pc_entries_ok(entries@),
                Err(e) => !pc_entries_ok(entries@) && e@.len() == 1,
            },
    {
        let key_title = "title".to_owned();
        let key_authors = "authors".to_owned();
        let mut title: Option<String> = None;
        let mut authors: Option<Vec<String>> = None;
        let n = entries.len();
        let mut i: usize = 0;
        proof {
            crate::front_matter::lemma_key_index(entries@, "title"@, 0);
            crate::front_matter::lemma_key_index(entries@, "authors"@, 0);
        }
        while i < n
            invariant
                0 <= i <= n,
                n == entries@.len(),
                key_title@ == "title"@,
                key_authors@ == "authors"@,
                match key_index(entries@, "title"@) {
                    Some(j) => if j < i {
                        leaf_text(entries@[j].1) is Some && opt_view(title) == opt_view(
                            leaf_text(entries@[j].1),
                        )
                    } else {
                        title is None
                    },
                    None => title is None,
                },
                match key_index(entries@, "authors"@) {
                    Some(j) => if j < i {
                        leaf_texts_of(entries@[j].1) is Some && authors is Some && authors->0@
                            .map_values(|t: String| t@) == leaf_texts_of(entries@[j].1)->0
                    } else {
                        authors is None
                    },
                    None => authors is None,
                },
                match key_index(entries@, "title"@) {
                    Some(j) => j < i ==> leaf_text(entries@[j].1) is Some,
                    None => true,
                },
            decreases n - i,
        {
            proof {
                reveal_strlit("title");
                reveal_strlit("authors");
                assert("title"@.len() == 5 && "authors"@.len() == 7);
                crate::front_matter::lemma_key_index(entries@, "title"@, 0);
                crate::front_matter::lemma_key_index(entries@, "authors"@, 0);
            }
            let e = &entries[i];
            if e.0 == key_title {
                if title.is_none() && matches_first(entries, i, &key_title) {
                    match &e.1 {
                        TomlLeaf::Text(s) => {
                            title = Some(s.clone());
                        },
                        TomlLeaf::Other(_) => {
                            proof {
                                assert(leaf_text(entries@[i as int].1) is None);
                            }
                            return Err(Error::new("invalid type for key `title`".to_owned()));
                        },
                    }
                }
            } else if e.0 == key_authors {
                if authors.is_none() && matches_first(entries, i, &key_authors) {
                    match leaf_str_list(&e.1) {
                        Some(list) => {
                            authors = Some(list);
                        },
                        None => {
                            proof {
                                assert(leaf_texts_of(entries@[i as int].1) is None);
                            }
                            return Err(Error::new("invalid type for key `authors`".to_owned()));
                        },
                    }
                }
            }
            i = i + 1;
        }
        proof {
            crate::front_matter::lemma_key_index(entries@, "title"@, 0);
            crate::front_matter::lemma_key_index(entries@, "authors"@, 0);
        }
        Ok(ProjectConfig { title, authors })
    }
}

/// The view of an optional string.
pub open spec fn opt_view(v: Option<String>) -> Option<Seq<char>> {
    match v {
        Some(s) => Some(s@),
        None => None,
    }
}

/// Whether position `i` is the first occurrence of `key` in the entries.
fn matches_first(entries: &Vec<(String, TomlLeaf)>, i: usize, key: &String) -> (r: bool)
    requires
        i < entries@.len(),
        entries@[i as int].0@ == key@,
    ensures
        r == (key_index(entries@, key@) == Some(i as int)),
{
    proof {
        crate::front_matter::lemma_key_index(entries@, key@, 0);
    }
    let mut j: usize = 0;
    while j < i
        invariant
            0 <= j <= i < entries@.len(),
            entries@[i as int].0@ == key@,
            forall|m: int| 0 <= m < j ==> (#[trigger] entries@[m].0@) != key@,
        decreases i - j,
    {
        if entries[j].0 == *key {
            proof {
                crate::front_matter::lemma_key_index(entries@, key@, 0);
            }
            return false;
        }
        j = j + 1;
    }
    proof {
        crate::front_matter::lemma_first_at(entries@, i as int, key@);
    }
    true
}

/// What a configuration denotes of the entries it was read from: a missing
/// `project` entry leaves the section default, and everything else is
/// preserved in order.
pub open spec fn rc_matches_entries(rc: RawConfig, es: Seq<(String, TomlLeaf)>) -> bool {
    &&& match key_index(es, "project"@) {
        None => rc.project.is_default(),
        Some(i) => leaf_table_of(es[i].1) is Some && pc_matches_entries(
            rc.project,
            leaf_table_of(es[i].1)->0,
        ),
    }
    &&& rc.rest@ == es.filter(|e: (String, TomlLeaf)| e.0@ != "project"@)
}

/// A readable configuration table: a present `project` entry is a table
/// whose section reads.
pub open spec fn rc_entries_ok(es: Seq<(String, TomlLeaf)>) -> bool {
    match key_index(es, "project"@) {
        None => true,
        Some(i) => leaf_table_of(es[i].1) is Some && pc_entries_ok(leaf_table_of(es[i].1)->0),
    }
}

impl RawConfig {
    pub open spec fn is_default(&self) -> bool {
        self.project.is_default() && self.rest@ == Seq::<(String, TomlLeaf)>::empty()
    }

    /// Interpret a parsed configuration table: the `project` entry, when
    /// present, must be a table as `ProjectConfig` reads it; every other
    /// entry is preserved in order. Fails if and only if the first
    /// `project` entry is not such a table.
    pub fn from_entries(entries: Vec<(String, TomlLeaf)>) -> (r: Result<RawConfig, Error>)
        ensures
            match r {
                Ok(rc) => rc_matches_entries(rc, entries@) && rc_entries_ok(entries@),
                Err(e) => !rc_entries_ok(entries@) && e@.len() == 1,
            },
    {
        let key_project = "project".to_owned();
        let mut es = entries;
        let ghost orig = es@;
        let mut project: Option<ProjectConfig> = None;
        let mut rest: Vec<(String, TomlLeaf)> = Vec::new();
        let mut err: Option<Error> = None;
        let ghost mut prefix: Seq<(String, TomlLeaf)> = Seq::empty();
        proof {
            assert(prefix.filter(|e: (String, TomlLeaf)| e.0@ != "project"@) =~= rest@);
        }
        while es.len() > 0 && err.is_none()
            invariant
                err is Some ==> !rc_entries_ok(orig) && err->0@.len() == 1,
                prefix.len() + es@.len() == orig.len(),
                prefix =~= orig.subrange(0, prefix.len() as int),
                es@ =~= orig.subrange(prefix.len() as int, orig.len() as int),
                key_project@ == "project"@,
                err is None ==> match key_index(prefix, "project"@) {
                    None => project is None,
                    Some(j) => leaf_table_of(prefix[j].1) is Some && pc_entries_ok(
                        leaf_table_of(prefix[j].1)->0,
                    ) && project is Some && pc_matches_entries(
                        project->0,
                        leaf_table_of(prefix[j].1)->0,
                    ),
                },
                err is None ==> rest@ == prefix.filter(
                    |e: (String, TomlLeaf)| e.0@ != "project"@,
                ),
            decreases es@.len(),
        {
            let e = es.remove(0);
            proof {
                assert(e == orig[prefix.len() as int]);
                assert(es@ =~= orig.subrange(prefix.len() + 1 as int, orig.len() as int));
            }
            let ghost new_prefix = prefix.push(e);
            proof {
                assert(new_prefix =~= orig.subrange(0, prefix.len() + 1 as int));
                crate::front_matter::lemma_key_index(prefix, "project"@, 0);
                crate::toml_data::lemma_key_index_push(prefix, e, "project"@, 0);
                assert(new_prefix.drop_last() =~= prefix);
                assert(new_prefix[prefix.len() as int] == e);
                assert(forall|m: int|
                    0 <= m < prefix.len() ==> #[trigger] new_prefix[m] == prefix[m]);
                reveal_with_fuel(Seq::filter, 2);
            }
            if e.0 == key_project {
                if project.is_none() {
                    proof {
                        assert(key_index(prefix, "project"@) is None);
                        crate::front_matter::lemma_err_exit(orig, prefix, e, "project"@);
                    }
                    match leaf_table_entries(&e.1) {
                        None => {
                            err = Some(
                                Error::new("invalid type for key `project`".to_owned()),
                            );
                        },
                        Some(sub) => {
                            match ProjectConfig::from_entries(&sub) {
                                Ok(pc) => {
                                    project = Some(pc);
                                },
                                Err(e) => {
                                    err = Some(e);
                                },
                            }
                        },
                    }
                }
            } else {
                rest.push(e);
            }
            proof {
                prefix = new_prefix;
            }
        }
        if let Some(e) = err {
            return Err(e);
        }
        proof {
            assert(prefix =~= orig);
        }
        match project {
            Some(project) => Ok(RawConfig { project, rest }),
            None => Ok(
                RawConfig { project: ProjectConfig { title: None, authors: None }, rest },
            ),
        }
    }

    /// The layout that merging a configuration produces: the `project`
    /// section's table value first, then the preserved entries.
    pub open spec fn entry_layout(&self, es: Seq<(String, TomlLeaf)>) -> bool {
        &&& es.len() == 1 + self.rest@.len()
        &&& es[0].0@ == "project"@
        &&& es[0].1 == project_leaf_of(
            opt_view(self.project.title),
            match self.project.authors {
                Some(a) => Some(a@.map_values(|t: String| t@)),
                None => None::<Seq<Seq<char>>>,
            },
        )
        &&& es.subrange(1, es.len() as int) == self.rest@
    }

    /// Merge back into one flat table: the `project` section first, then
    /// the preserved entries. Round trip of the configuration model: the
    /// produced entries are well typed and their `project` table denotes
    /// the same section again, by the views of its fields — the library
    /// half of the round trip; the TOML text in between is the codec's own.
    pub fn into_entries(self) -> (r: Vec<(String, TomlLeaf)>)
        ensures
            self.entry_layout(r@),
            key_index(r@, "project"@) == Some(0int),
            leaf_table_of(r@[0].1) is Some,
            pc_entries_ok(leaf_table_of(r@[0].1)->0),
            pc_matches_entries(self.project, leaf_table_of(r@[0].1)->0),
    {
        let RawConfig { project, rest } = self;
        let mut out: Vec<(String, TomlLeaf)> = Vec::new();
        out.push(("project".to_owned(), project_table_leaf(&project.title, &project.authors)));
        let mut rest = rest;
        let ghost head = out@;
        out.append(&mut rest);
        proof {
            assert(out@.subrange(1, out@.len() as int) =~= self.rest@);
            assert(out@[0].0@ == "project"@);
            crate::front_matter::lemma_first_at(out@, 0, "project"@);
        }
        out
    }
}

impl Config {
    /// A default configuration rooted at the given directory.
    pub fn new(root_dir: String) -> (r: Config)
        ensures
            r.root_dir@ == root_dir@,
            r.inner.is_default(),
    {
        Config {
            root_dir,
            inner: RawConfig {
                project: ProjectConfig { title: None, authors: None },
                rest: Vec::new(),
            },
        }
    }

    /// Interpret the configuration file's text, when the file exists.
    ///
    /// An absent file gives the default configuration; a malformed one
    /// fails with a chain naming the file and the parse fault.
    pub fn from_text(root_dir: String, text: Option<&String>) -> (r: Result<Config, Error>)
        ensures
            match r {
                Ok(c) => {
                    &&& c.root_dir@ == root_dir@
                    &&& match text {
                        None => c.inner.is_default(),
                        Some(t) => toml_entries_of(t@) is Ok && rc_matches_entries(
                            c.inner,
                            toml_entries_of(t@)->Ok_0,
                        ),
                    }
                },
                Err(e) => {
                    &&& text is Some
                    &&& !(toml_entries_of(text->0@) is Ok && rc_entries_ok(
                        toml_entries_of(text->0@)->Ok_0,
                    ))
                    &&& e@.len() == 3
                    &&& e@[0] == "failed to load config file `"@ + (root_dir@ + "/"@
                        + "belong.toml"@) + "`"@
                    &&& e@[1] == "failed to parse file contents"@
                    &&& (toml_entries_of(text->0@) is Err ==> e@[2] == toml_entries_of(
                        text->0@,
                    )->Err_0)
                },
            },
    {
        let text = match text {
            Some(t) => t,
            None => {
                return Ok(Config::new(root_dir));
            },
        };
        let path = join_path(&root_dir, "belong.toml");
        match parse_toml_entries(text.as_str()) {
            Err(msg) => {
                let mut ctx = String::new();
                ctx.append("failed to load config file `");
                ctx.append(path.as_str());
                ctx.append("`");
                Err(
                    Error::new(msg).context("failed to parse file contents".to_owned()).context(
                        ctx,
                    ),
                )
            },
            Ok(entries) => {
                let ghost es = entries@;
                match RawConfig::from_entries(entries) {
                    Err(e) => {
                        let mut ctx = String::new();
                        ctx.append("failed to load config file `");
                        ctx.append(path.as_str());
                        ctx.append("`");
                        Err(e.context("failed to parse file contents".to_owned()).context(ctx))
                    },
                    Ok(inner) => {
                        proof {
                            assert(rc_matches_entries(inner, es));
                        }
                        Ok(Config { root_dir, inner })
                    },
                }
            },
        }
    }

    /// The root directory this project lives in.
    pub fn root_dir(&self) -> (r: &String)
        ensures
            r == &self.root_dir,
    {
        &self.root_dir
    }

    /// The path of the configuration file.
    pub fn path(&self) -> (r: String)
        ensures
            r@ == self.root_dir@ + "/"@ + "belong.toml"@,
    {
        join_path(&self.root_dir, "belong.toml")
    }

    /// The directory the Markdown sources live in.
    pub fn src_dir(&self) -> (r: String)
        ensures
            r@ == self.root_dir@ + "/"@ + "src"@,
    {
        join_path(&self.root_dir, "src")
    }

    /// The directory an overriding theme lives in.
    pub fn theme_dir(&self) -> (r: String)
        ensures
            r@ == self.root_dir@ + "/"@ + "theme"@,
    {
        join_path(&self.root_dir, "theme")
    }

    /// The directory the rendered site is written to.
    pub fn output_dir(&self) -> (r: String)
        ensures
            r@ == self.root_dir@ + "/"@ + "output"@,
    {
        join_path(&self.root_dir, "output")
    }

    /// Set the project title.
    pub fn set_title(&mut self, title: String)
        ensures
            final (self).inner.project.title == Some(title),
            final (self).inner.project.authors == old(self).inner.project.authors,
            final (self).inner.rest == old(self).inner.rest,
            final (self).root_dir == old(self).root_dir,
    {
        self.inner.project.title = Some(title);
    }

    /// Add an author to the project.
    pub fn add_author(&mut self, author: String)
        ensures
            final (self).inner.project.title == old(self).inner.project.title,
            final (self).root_dir == old(self).root_dir,
            final (self).inner.rest == old(self).inner.rest,
            final (self).inner.project.authors is Some,
            final (self).inner.project.authors->0@ == match old(self).inner.project.authors {
                Some(a) => a@.push(author),
                None => seq![author],
            },
    {
        let authors = self.inner.project.authors.take();
        match authors {
            Some(mut a) => {
                a.push(author);
                self.inner.project.authors = Some(a);
            },
            None => {
                let mut a: Vec<String> = Vec::new();
                a.push(author);
                self.inner.project.authors = Some(a);
            },
        }
    }

    /// Serialize the configuration back to TOML text: the text the TOML
    /// writer produces for the merged entries, or the writer's own error.
    pub fn to_toml_text(self) -> (r: Result<String, Error>)
        ensures
            match r {
                Ok(t) => exists|es: Seq<(String, TomlLeaf)>|
                    #[trigger] toml_text_of(es) == Ok::<Seq<char>, Seq<char>>(t@)
                        && self.inner.entry_layout(es),
                Err(e) => e@.len() == 1 && exists|es: Seq<(String, TomlLeaf)>|
                    #[trigger] toml_text_of(es) == Err::<Seq<char>, Seq<char>>(e@[0])
                        && self.inner.entry_layout(es),
            },
    {
        let entries = self.inner.into_entries();
        let ghost es = entries@;
        match crate::toml_data::entries_to_toml_text(entries) {
            Ok(text) => Ok(text),
            Err(msg) => Err(Error::new(msg)),
        }
    }
}

/// Join a directory and a name with a single slash.
pub fn join_path(dir: &String, name: &str) -> (r: String)
    ensures
        r@ == dir@ + "/"@ + name@,
{
    let mut out = String::new();
    out.append(dir.as_str());
    out.append("/");
    out.append(name);
    out
}

} // verus!
