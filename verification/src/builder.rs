//! Scaffolding a new project: the files an initialization writes.

use vstd::prelude::*;

use crate::config::Config;
use crate::date::Date;
use crate::error::Error;
use crate::front_matter::{FrontMatter, LeafShape, RawPage, entries_shape, opt_text_shape, spec_framed};
use crate::toml_data::{TomlLeaf, toml_text_of};

verus! {

/// The body of the first page a new project starts with.
pub const HELLO_CONTENTS: &'static str = "Hello World! This is the first page on my site.\n\nI wrote some Rust code for the occasion:\n\n```rust\nfn main() {\n    println!(\"Hello, world!\");\n}\n```\n";

/// A builder to initialize a new project.
#[derive(Debug)]
pub struct Builder {
    /// The configuration used to control how the project is built.
    pub config: Config,
    /// Whether to plan a `.gitignore` file.
    pub gitignore: bool,
}

/// The shape of the first page's metadata entries: its title, today's
/// date, and its kind.
pub open spec fn hello_shape(today: Date) -> Seq<(Seq<char>, LeafShape)> {
    opt_text_shape("title"@, Some("Hello World!"@)) + opt_text_shape("description"@, None)
        + opt_text_shape("date"@, Some(today.spec_format())) + opt_text_shape(
        "kind"@,
        Some("post"@),
    )
}

impl Builder {
    /// A builder for a project rooted at the given directory.
    pub fn new(root_dir: String) -> (r: Builder)
        ensures
            r.config.root_dir@ == root_dir@,
            r.config.inner.is_default(),
            r.gitignore,
    {
        Builder { config: Config::new(root_dir), gitignore: true }
    }

    /// The title for the project.
    pub fn title(self, title: String) -> (r: Builder)
        ensures
            r.config.inner.project.title == Some(title),
            r.config.inner.project.authors == self.config.inner.project.authors,
            r.config.root_dir == self.config.root_dir,
            r.gitignore == self.gitignore,
    {
        let mut config = self.config;
        config.set_title(title);
        Builder { config, gitignore: self.gitignore }
    }

    /// Add an author for the project.
    pub fn author(self, author: String) -> (r: Builder)
        ensures
            r.config.inner.project.title == self.config.inner.project.title,
            r.config.inner.project.authors is Some,
            r.config.inner.project.authors->0@ == match self.config.inner.project.authors {
                Some(a) => a@.push(author),
                None => seq![author],
            },
            r.config.root_dir == self.config.root_dir,
            r.gitignore == self.gitignore,
    {
        let mut config = self.config;
        config.add_author(author);
        Builder { config, gitignore: self.gitignore }
    }

    /// Whether to plan a `.gitignore` file.
    pub fn gitignore(self, gitignore: bool) -> (r: Builder)
        ensures
            r.config == self.config,
            r.gitignore == gitignore,
    {
        Builder { config: self.config, gitignore }
    }

    /// The first page of a new project, dated today.
    fn generate_hello_world_page(today: &Date) -> (r: RawPage)
        requires
            today.is_valid(),
        ensures
            crate::config::opt_view(r.front_matter.title) == Some("Hello World!"@),
            r.front_matter.date == Some(*today),
            crate::config::opt_view(r.front_matter.kind) == Some("post"@),
            r.front_matter.description is None,
            r.front_matter.rest@.len() == 0,
            r.front_matter.wf(),
            r.contents@ == HELLO_CONTENTS@,
    {
        let mut front_matter = FrontMatter::default();
        front_matter.title = Some("Hello World!".to_owned());
        front_matter.date = Some(*today);
        front_matter.kind = Some("post".to_owned());
        RawPage { front_matter, contents: HELLO_CONTENTS.to_owned() }
    }

    /// The files that initialize the project, as root-relative paths with
    /// their contents: an optional `.gitignore`, the configuration file as
    /// the TOML writer renders the configuration's entries, and a first
    /// page under the source directory, its metadata framed around the
    /// writer's text. Fails only where the writer fails on those entries.
    pub fn init(self, today: &Date) -> (r: Result<Vec<(String, String)>, Error>)
        requires
            today.is_valid(),
        ensures
            match r {
                Ok(files) => {
                    let k: int = if self.gitignore {
                        1int
                    } else {
                        0int
                    };
                    &&& files@.len() == k + 2
                    &&& (self.gitignore ==> files@[0].0@ == ".gitignore"@ && files@[0].1@
                        == "public\n"@)
                    &&& files@[k].0@ == "belong.toml"@
                    &&& exists|es: Seq<(String, TomlLeaf)>|
                        #![trigger toml_text_of(es)]
                        toml_text_of(es) == Ok::<Seq<char>, Seq<char>>(files@[k].1@)
                            && self.config.inner.entry_layout(es)
                    &&& files@[k + 1].0@ == "src/hello-world.md"@
                    &&& exists|es: Seq<(String, TomlLeaf)>|
                        #![trigger toml_text_of(es)]
                        toml_text_of(es) is Ok && entries_shape(es) == hello_shape(*today)
                            && files@[k + 1].1@ == spec_framed(
                            toml_text_of(es)->Ok_0,
                            HELLO_CONTENTS@,
                        )
                },
                Err(e) => e@.len() == 1 && exists|es: Seq<(String, TomlLeaf)>|
                    #![trigger toml_text_of(es)]
                    toml_text_of(es) == Err::<Seq<char>, Seq<char>>(e@[0]) && (
                    self.config.inner.entry_layout(es) || entries_shape(es) == hello_shape(
                        *today,
                    )),
            },
    {
        let mut files: Vec<(String, String)> = Vec::new();
        if self.gitignore {
            files.push((".gitignore".to_owned(), "public\n".to_owned()));
        }
        let config_text = match self.config.to_toml_text() {
            Ok(t) => t,
            Err(e) => {
                return Err(e);
            },
        };
        files.push(("belong.toml".to_owned(), config_text));
        let page = Self::generate_hello_world_page(today);
        proof {
            assert(page.front_matter.known_shape() + entries_shape(page.front_matter.rest@)
                =~= hello_shape(*today));
        }
        let page_text = match page.to_text() {
            Ok(t) => t,
            Err(e) => {
                return Err(e);
            },
        };
        files.push(("src/hello-world.md".to_owned(), page_text));
        Ok(files)
    }
}

} // verus!
