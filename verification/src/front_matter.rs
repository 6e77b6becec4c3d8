//! Front matter: the structured metadata at the head of a content file.
//!
//! The recognized fields `title`, `description`, `date` and `kind` are typed
//! and validated; every other entry of the metadata table is preserved
//! losslessly in `rest` for round-trip serialization.

use vstd::prelude::*;

use crate::date::{Date, spec_parse_date};
use crate::document;
use crate::error::Error;
use crate::text;
use crate::toml_data::{TomlLeaf, key_index, key_index_from, parse_toml_entries, toml_entries_of, toml_text_of};

verus! {

/// The metadata of one page.
#[derive(Debug, PartialEq)]
pub struct FrontMatter {
    /// The title for this page.
    pub title: Option<String>,
    /// The description for this page.
    pub description: Option<String>,
    /// The date this page was written.
    pub date: Option<Date>,
    /// The type of page this is.
    pub kind: Option<String>,
    /// The rest of the metadata table, preserved untouched.
    pub rest: Vec<(String, TomlLeaf)>,
}

/// A raw page: front matter and content body, as split from one file.
#[derive(Debug, PartialEq)]
pub struct RawPage {
    pub front_matter: FrontMatter,
    pub contents: String,
}

/// The keys that front matter interprets; all others go to `rest`.
pub open spec fn known_key(k: Seq<char>) -> bool {
    ||| k == "title"@
    ||| k == "description"@
    ||| k == "date"@
    ||| k == "kind"@
}

/// The text of a leaf, if it is a string.
pub open spec fn leaf_text(l: TomlLeaf) -> Option<String> {
    match l {
        TomlLeaf::Text(s) => Some(s),
        TomlLeaf::Other(_) => None,
    }
}

/// The string value the entries give a key, if any.
pub open spec fn str_field_of(es: Seq<(String, TomlLeaf)>, key: Seq<char>) -> Option<String> {
    match key_index(es, key) {
        Some(i) => leaf_text(es[i].1),
        None => None,
    }
}

/// The date the entries give, if any.
pub open spec fn date_field_of(es: Seq<(String, TomlLeaf)>) -> Option<Date> {
    match str_field_of(es, "date"@) {
        Some(s) => spec_parse_date(s@),
        None => None,
    }
}

/// A present string field must be a string leaf.
pub open spec fn str_field_ok(es: Seq<(String, TomlLeaf)>, key: Seq<char>) -> bool {
    match key_index(es, key) {
        Some(i) => leaf_text(es[i].1) is Some,
        None => true,
    }
}

/// A present date field must be a string leaf holding a valid date.
pub open spec fn date_field_ok(es: Seq<(String, TomlLeaf)>) -> bool {
    match key_index(es, "date"@) {
        Some(i) => leaf_text(es[i].1) is Some && spec_parse_date(leaf_text(es[i].1)->0@) is Some,
        None => true,
    }
}

/// All recognized fields are well typed.
pub open spec fn entries_ok(es: Seq<(String, TomlLeaf)>) -> bool {
    &&& str_field_ok(es, "title"@)
    &&& str_field_ok(es, "description"@)
    &&& str_field_ok(es, "kind"@)
    &&& date_field_ok(es)
}

/// What front matter the entries denote.
pub open spec fn fm_matches_entries(fm: FrontMatter, es: Seq<(String, TomlLeaf)>) -> bool {
    &&& entries_ok(es)
    &&& fm.title == str_field_of(es, "title"@)
    &&& fm.description == str_field_of(es, "description"@)
    &&& fm.kind == str_field_of(es, "kind"@)
    &&& fm.date == date_field_of(es)
    &&& fm.rest@ == es.filter(|e: (String, TomlLeaf)| !known_key(e.0@))
}

/// `key_index_from` finds the first matching key, inside the bounds.
pub proof fn lemma_key_index(es: Seq<(String, TomlLeaf)>, key: Seq<char>, i: int)
    requires
        0 <= i <= es.len(),
    ensures
        match key_index_from(es, key, i) {
            Some(j) => i <= j < es.len() && es[j].0@ == key && forall|m: int|
                i <= m < j ==> (#[trigger] es[m].0@) != key,
            None => forall|m: int| i <= m < es.len() ==> (#[trigger] es[m].0@) != key,
        },
    decreases es.len() - i,
{
    if i < es.len() && es[i].0@ != key {
        lemma_key_index(es, key, i + 1);
    }
}

/// A key first occurs at `k` when it stands there and nowhere earlier.
pub proof fn lemma_first_at(es: Seq<(String, TomlLeaf)>, k: int, key: Seq<char>)
    requires
        0 <= k < es.len(),
        es[k].0@ == key,
        forall|m: int| 0 <= m < k ==> (#[trigger] es[m].0@) != key,
    ensures
        key_index(es, key) == Some(k),
{
    lemma_key_index(es, key, 0);
}

/// How appending one entry changes what the entries say of a key.
proof fn lemma_step(prefix: Seq<(String, TomlLeaf)>, e: (String, TomlLeaf), key: Seq<char>)
    ensures
        str_field_of(prefix.push(e), key) == match key_index(prefix, key) {
            Some(_) => str_field_of(prefix, key),
            None => if e.0@ == key {
                leaf_text(e.1)
            } else {
                None
            },
        },
        str_field_ok(prefix.push(e), key) == match key_index(prefix, key) {
            Some(_) => str_field_ok(prefix, key),
            None => if e.0@ == key {
                leaf_text(e.1) is Some
            } else {
                true
            },
        },
{
    crate::toml_data::lemma_key_index_push(prefix, e, key, 0);
    lemma_key_index(prefix, key, 0);
    assert(prefix.push(e)[prefix.len() as int] == e);
    assert(forall|j: int| 0 <= j < prefix.len() ==> #[trigger] prefix.push(e)[j] == prefix[j]);
}

/// When the prefix of the entries lacks a key that the next entry carries,
/// that entry is the key's first occurrence in the whole list.
pub(crate) proof fn lemma_err_exit(
    orig: Seq<(String, TomlLeaf)>,
    prefix: Seq<(String, TomlLeaf)>,
    e: (String, TomlLeaf),
    key: Seq<char>,
)
    requires
        prefix.len() < orig.len(),
        prefix =~= orig.subrange(0, prefix.len() as int),
        e == orig[prefix.len() as int],
        e.0@ == key,
        key_index(prefix, key) is None,
    ensures
        key_index(orig, key) == Some(prefix.len() as int),
{
    lemma_key_index(prefix, key, 0);
    assert forall|m: int| 0 <= m < prefix.len() implies (#[trigger] orig[m].0@) != key by {
        assert(prefix[m] == orig.subrange(0, prefix.len() as int)[m]);
        assert(prefix[m].0@ != key);
    }
    lemma_first_at(orig, prefix.len() as int, key);
}

impl FrontMatter {
    /// No recognized field set and no further entries.
    pub open spec fn is_default(&self) -> bool {
        &&& self.title is None
        &&& self.description is None
        &&& self.date is None
        &&& self.kind is None
        &&& self.rest@ == Seq::<(String, TomlLeaf)>::empty()
    }

    /// A held date is always a valid calendar date.
    pub open spec fn wf(&self) -> bool {
        self.date is Some ==> self.date->0.is_valid()
    }

    /// Interpret the entries of a metadata table: recognized keys are typed
    /// and validated, everything else is preserved in order in `rest`.
    /// Fails if and only if a recognized key holds a value of the wrong
    /// type, counting an unreadable date as such.
    pub fn from_entries(entries: Vec<(String, TomlLeaf)>) -> (r: Result<FrontMatter, Error>)
        ensures
            match r {
                Ok(fm) => fm_matches_entries(fm, entries@) && fm.wf(),
                Err(e) => !entries_ok(entries@) && e@.len() == 1,
            },
    {
        let ghost orig = entries@;
        let key_title = "title".to_owned();
        let key_description = "description".to_owned();
        let key_date = "date".to_owned();
        let key_kind = "kind".to_owned();
        let mut es = entries;
        let mut title: Option<String> = None;
        let mut description: Option<String> = None;
        let mut date: Option<Date> = None;
        let mut date_text: Option<String> = None;
        let mut kind: Option<String> = None;
        let mut rest: Vec<(String, TomlLeaf)> = Vec::new();
        let mut err: Option<Error> = None;
        let ghost mut prefix: Seq<(String, TomlLeaf)> = Seq::empty();
        proof {
            assert(orig.subrange(0, 0) =~= prefix);
            assert(prefix.filter(|e: (String, TomlLeaf)| !known_key(e.0@)) =~= rest@);
        }
        while es.len() > 0 && err.is_none()
            invariant
                err is Some ==> !entries_ok(orig) && err->0@.len() == 1,
                prefix.len() + es@.len() == orig.len(),
                prefix =~= orig.subrange(0, prefix.len() as int),
                es@ =~= orig.subrange(prefix.len() as int, orig.len() as int),
                key_title@ == "title"@,
                key_description@ == "description"@,
                key_date@ == "date"@,
                key_kind@ == "kind"@,
                err is None ==> title == str_field_of(prefix, "title"@) && str_field_ok(prefix, "title"@),
                err is None ==> description == str_field_of(prefix, "description"@) && str_field_ok(
                    prefix,
                    "description"@,
                ),
                err is None ==> kind == str_field_of(prefix, "kind"@) && str_field_ok(prefix, "kind"@),
                err is None ==> date_text == str_field_of(prefix, "date"@) && date_field_ok(prefix),
                err is None ==> date == date_field_of(prefix),
                date is Some ==> date->0.is_valid(),
                err is None ==> rest@ == prefix.filter(|e: (String, TomlLeaf)| !known_key(e.0@)),
            decreases es@.len(),
        {
            let e = es.remove(0);
            proof {
                reveal_strlit("title");
                reveal_strlit("description");
                reveal_strlit("date");
                reveal_strlit("kind");
                assert("title"@.len() == 5 && "description"@.len() == 11 && "date"@.len() == 4
                    && "kind"@.len() == 4 && "date"@[0] == 'd' && "kind"@[0] == 'k');
                assert("title"@ != "description"@ && "title"@ != "date"@ && "title"@ != "kind"@
                    && "description"@ != "date"@ && "description"@ != "kind"@ && "date"@
                    != "kind"@);
                assert(e == orig[prefix.len() as int]);
                assert(es@ =~= orig.subrange(prefix.len() + 1 as int, orig.len() as int));
                lemma_key_index(prefix, "title"@, 0);
                lemma_key_index(prefix, "description"@, 0);
                lemma_key_index(prefix, "date"@, 0);
                lemma_key_index(prefix, "kind"@, 0);
            }
            let ghost new_prefix = prefix.push(e);
            proof {
                assert(new_prefix =~= orig.subrange(0, prefix.len() + 1 as int));
                lemma_step(prefix, e, "title"@);
                lemma_step(prefix, e, "description"@);
                lemma_step(prefix, e, "date"@);
                lemma_step(prefix, e, "kind"@);
                assert(new_prefix.drop_last() =~= prefix);
                reveal_with_fuel(Seq::filter, 2);
            }
            if e.0 == key_title {
                if title.is_none() {
                    match &e.1 {
                        TomlLeaf::Text(s) => {
                            title = Some(s.clone());
                        },
                        TomlLeaf::Other(_) => {
                            proof {
                                assert(leaf_text(e.1) is None);
                                assert(key_index(prefix, "title"@) is None);
                                lemma_err_exit(orig, prefix, e, "title"@);
                                assert(!str_field_ok(orig, "title"@));
                            }
                            err = Some(Error::new("invalid type for key `title`".to_owned()));
                        },
                    }
                }
            } else if e.0 == key_description {
                if description.is_none() {
                    match &e.1 {
                        TomlLeaf::Text(s) => {
                            description = Some(s.clone());
                        },
                        TomlLeaf::Other(_) => {
                            proof {
                                assert(leaf_text(e.1) is None);
                                assert(key_index(prefix, "description"@) is None);
                                lemma_err_exit(orig, prefix, e, "description"@);
                                assert(!str_field_ok(orig, "description"@));
                            }
                            err = Some(
                                Error::new("invalid type for key `description`".to_owned()),
                            );
                        },
                    }
                }
            } else if e.0 == key_date {
                if date_text.is_none() {
                    match &e.1 {
                        TomlLeaf::Text(s) => {
                            match Date::parse(s.as_str()) {
                                Some(d) => {
                                    date = Some(d);
                                    date_text = Some(s.clone());
                                },
                                None => {
                                    proof {
                                        assert(leaf_text(e.1) == Some(*s));
                                        assert(key_index(prefix, "date"@) is None);
                                        lemma_err_exit(orig, prefix, e, "date"@);
                                        assert(!date_field_ok(orig));
                                    }
                                    err = Some(
                                        Error::new("invalid date for key `date`".to_owned()),
                                    );
                                },
                            }
                        },
                        TomlLeaf::Other(_) => {
                            proof {
                                assert(leaf_text(e.1) is None);
                                assert(key_index(prefix, "date"@) is None);
                                lemma_err_exit(orig, prefix, e, "date"@);
                                assert(!str_field_ok(orig, "date"@));
                            }
                            err = Some(Error::new("invalid type for key `date`".to_owned()));
                        },
                    }
                }
            } else if e.0 == key_kind {
                if kind.is_none() {
                    match &e.1 {
                        TomlLeaf::Text(s) => {
                            kind = Some(s.clone());
                        },
                        TomlLeaf::Other(_) => {
                            proof {
                                assert(leaf_text(e.1) is None);
                                assert(key_index(prefix, "kind"@) is None);
                                lemma_err_exit(orig, prefix, e, "kind"@);
                                assert(!str_field_ok(orig, "kind"@));
                            }
                            err = Some(Error::new("invalid type for key `kind`".to_owned()));
                        },
                    }
                }
            } else {
                rest.push(e);
            }
            proof {
                prefix = new_prefix;
            }
        }
        if let Some(e) = err {
            return Err(e);
        }
        proof {
            assert(prefix =~= orig);
        }
        Ok(FrontMatter { title, description, date, kind, rest })
    }
}

/// The visible shape of one table entry value: its text when it is a
/// string, the opaque TOML value otherwise.
pub enum LeafShape {
    Text(Seq<char>),
    Other(toml::Value),
}

/// The visible shape of a leaf.
pub open spec fn leaf_shape(l: TomlLeaf) -> LeafShape {
    match l {
        TomlLeaf::Text(s) => LeafShape::Text(s@),
        TomlLeaf::Other(v) => LeafShape::Other(v),
    }
}

/// The visible shape of a list of entries: key texts and value shapes.
pub open spec fn entries_shape(es: Seq<(String, TomlLeaf)>) -> Seq<(Seq<char>, LeafShape)> {
    es.map_values(|e: (String, TomlLeaf)| (e.0@, leaf_shape(e.1)))
}

/// One text entry when the field is set, nothing otherwise.
pub open spec fn opt_text_shape(key: Seq<char>, v: Option<Seq<char>>) -> Seq<(Seq<char>, LeafShape)> {
    match v {
        Some(t) => seq![(key, LeafShape::Text(t))],
        None => Seq::empty(),
    }
}

/// The view of an optional string.
pub open spec fn opt_str_view(v: Option<String>) -> Option<Seq<char>> {
    match v {
        Some(s) => Some(s@),
        None => None,
    }
}

impl FrontMatter {
    /// The recognized fields as table entries, in declaration order, the
    /// date written back as its `YYYY-MM-DD` text.
    pub open spec fn known_shape(&self) -> Seq<(Seq<char>, LeafShape)> {
        opt_text_shape("title"@, opt_str_view(self.title)) + opt_text_shape(
            "description"@,
            opt_str_view(self.description),
        ) + opt_text_shape(
            "date"@,
            match self.date {
                Some(d) => Some(d.spec_format()),
                None => None,
            },
        ) + opt_text_shape("kind"@, opt_str_view(self.kind))
    }

    /// Merge the recognized fields and the preserved entries back into one
    /// flat table: set fields first, in declaration order, then `rest`.
    pub fn into_entries(self) -> (r: Vec<(String, TomlLeaf)>)
        requires
            self.wf(),
        ensures
            entries_shape(r@) =~= self.known_shape() + entries_shape(self.rest@),
    {
        let FrontMatter { title, description, date, kind, rest } = self;
        let mut out: Vec<(String, TomlLeaf)> = Vec::new();
        if let Some(t) = title {
            out.push(("title".to_owned(), TomlLeaf::Text(t)));
        }
        if let Some(t) = description {
            out.push(("description".to_owned(), TomlLeaf::Text(t)));
        }
        if let Some(d) = date {
            out.push(("date".to_owned(), TomlLeaf::Text(d.format())));
        }
        if let Some(t) = kind {
            out.push(("kind".to_owned(), TomlLeaf::Text(t)));
        }
        let mut rest = rest;
        let ghost head = out@;
        out.append(&mut rest);
        proof {
            assert(out@ =~= head + self.rest@);
        }
        out
    }

    /// Serialize to TOML text through the TOML writer: the text the writer
    /// produces for the merged entries, or the writer's own error.
    pub fn to_toml_text(self) -> (r: Result<String, Error>)
        requires
            self.wf(),
        ensures
            match r {
                Ok(t) => exists|es: Seq<(String, TomlLeaf)>|
                    #[trigger] toml_text_of(es) == Ok::<Seq<char>, Seq<char>>(t@)
                        && entries_shape(es) == self.known_shape() + entries_shape(self.rest@),
                Err(e) => e@.len() == 1 && exists|es: Seq<(String, TomlLeaf)>|
                    #[trigger] toml_text_of(es) == Err::<Seq<char>, Seq<char>>(e@[0])
                        && entries_shape(es) == self.known_shape() + entries_shape(self.rest@),
            },
    {
        let entries = self.into_entries();
        let ghost es = entries@;
        match crate::toml_data::entries_to_toml_text(entries) {
            Ok(text) => Ok(text),
            Err(msg) => Err(Error::new(msg)),
        }
    }
}

/// The framed form of a metadata block and contents: the serialized table
/// between plus-sign delimiter lines, a blank line, then the contents.
pub open spec fn spec_framed(toml_text: Seq<char>, contents: Seq<char>) -> Seq<char> {
    seq!['+', '+', '+', '\n'] + toml_text + seq!['+', '+', '+', '\n', '\n'] + contents
}

impl RawPage {
    /// Serialize the page: the front matter as the TOML writer renders its
    /// merged entries, framed between delimiter lines, a blank line, then
    /// the contents.
    pub fn to_text(self) -> (r: Result<String, Error>)
        requires
            self.front_matter.wf(),
        ensures
            match r {
                Ok(text) => exists|es: Seq<(String, TomlLeaf)>|
                    #[trigger] toml_text_of(es) is Ok && entries_shape(es)
                        == self.front_matter.known_shape() + entries_shape(
                        self.front_matter.rest@,
                    ) && text@ == spec_framed(toml_text_of(es)->Ok_0, self.contents@),
                Err(e) => e@.len() == 1 && exists|es: Seq<(String, TomlLeaf)>|
                    #[trigger] toml_text_of(es) == Err::<Seq<char>, Seq<char>>(e@[0])
                        && entries_shape(es) == self.front_matter.known_shape() + entries_shape(
                        self.front_matter.rest@,
                    ),
            },
    {
        let contents = self.contents;
        let toml_text = match self.front_matter.to_toml_text() {
            Ok(t) => t,
            Err(e) => {
                return Err(e);
            },
        };
        let mut out = String::new();
        out.append("+++\n");
        out.append(toml_text.as_str());
        out.append("+++\n\n");
        out.append(contents.as_str());
        proof {
            reveal_strlit("+++\n");
            reveal_strlit("+++\n\n");
            assert("+++\n"@ =~= seq!['+', '+', '+', '\n']);
            assert("+++\n\n"@ =~= seq!['+', '+', '+', '\n', '\n']);
            assert(out@ == spec_framed(toml_text@, contents@));
        }
        Ok(out)
    }
}

/// Entries whose first `h` keys are recognized and whose later keys are
/// not filter down to exactly the later entries.
proof fn lemma_filter_split(es: Seq<(String, TomlLeaf)>, h: int)
    requires
        0 <= h <= es.len(),
        forall|i: int| 0 <= i < h ==> known_key((#[trigger] es[i]).0@),
        forall|i: int| h <= i < es.len() ==> !known_key((#[trigger] es[i]).0@),
    ensures
        es.filter(|e: (String, TomlLeaf)| !known_key(e.0@)) =~= es.subrange(h, es.len() as int),
    decreases es.len(),
{
    reveal_with_fuel(Seq::filter, 2);
    if es.len() == 0 {
        assert(es.filter(|e: (String, TomlLeaf)| !known_key(e.0@)) =~= Seq::<(
            String,
            TomlLeaf,
        )>::empty());
    } else {
        let last = es.last();
        let head = es.drop_last();
        if h < es.len() {
            assert(!known_key(last.0@));
            lemma_filter_split(head, h);
            assert(es.filter(|e: (String, TomlLeaf)| !known_key(e.0@)) == head.filter(
                |e: (String, TomlLeaf)| !known_key(e.0@),
            ).push(last));
            assert(head.subrange(h, head.len() as int).push(last) =~= es.subrange(
                h,
                es.len() as int,
            ));
        } else {
            assert(known_key(last.0@));
            lemma_filter_split(head, h - 1);
            assert(es.filter(|e: (String, TomlLeaf)| !known_key(e.0@)) == head.filter(
                |e: (String, TomlLeaf)| !known_key(e.0@),
            ));
        }
    }
}

/// Round trip of the metadata model: entries with the shape that
/// serializing a front matter produces are well typed and denote the same
/// front matter again — the same recognized fields, by their views, and
/// the same preserved entries. The TOML text in between is the TOML
/// codec's own affair; this is the library's half of the round trip.
pub proof fn lemma_entries_round_trip(fm: FrontMatter, es: Seq<(String, TomlLeaf)>)
    requires
        fm.wf(),
        forall|k: int| 0 <= k < fm.rest@.len() ==> !known_key((#[trigger] fm.rest@[k]).0@),
        entries_shape(es) == fm.known_shape() + entries_shape(fm.rest@),
    ensures
        entries_ok(es),
        opt_str_view(str_field_of(es, "title"@)) == opt_str_view(fm.title),
        opt_str_view(str_field_of(es, "description"@)) == opt_str_view(fm.description),
        opt_str_view(str_field_of(es, "kind"@)) == opt_str_view(fm.kind),
        date_field_of(es) == fm.date,
        entries_shape(es.filter(|e: (String, TomlLeaf)| !known_key(e.0@))) == entries_shape(
            fm.rest@,
        ),
{
    reveal_strlit("title");
    reveal_strlit("description");
    reveal_strlit("date");
    reveal_strlit("kind");
    assert("title"@.len() == 5 && "description"@.len() == 11 && "date"@.len() == 4
        && "kind"@.len() == 4 && "date"@[0] == 'd' && "kind"@[0] == 'k');
    let sh = entries_shape(es);
    let a: int = if fm.title is Some {
        1int
    } else {
        0int
    };
    let b: int = if fm.description is Some {
        1int
    } else {
        0int
    };
    let c: int = if fm.date is Some {
        1int
    } else {
        0int
    };
    let dk: int = if fm.kind is Some {
        1int
    } else {
        0int
    };
    let h = a + b + c + dk;
    assert(es.len() == h + fm.rest@.len());
    // what each position holds, by its shape
    assert(forall|i: int| 0 <= i < es.len() ==> #[trigger] sh[i] == (es[i].0@, leaf_shape(es[i].1)));
    assert(forall|i: int|
        h <= i < es.len() ==> #[trigger] sh[i] == entries_shape(fm.rest@)[i - h]);
    assert forall|i: int| h <= i < es.len() implies !known_key((#[trigger] es[i]).0@) by {
        assert(sh[i] == entries_shape(fm.rest@)[i - h]);
        assert(entries_shape(fm.rest@)[i - h] == (
            fm.rest@[i - h].0@,
            leaf_shape(fm.rest@[i - h].1),
        ));
        assert(!known_key(fm.rest@[i - h].0@));
        assert(sh[i].0 == es[i].0@);
    }
    // the text of an entry follows from its shape
    assert(forall|i: int|
        0 <= i < es.len() && (#[trigger] leaf_shape(es[i].1)) is Text ==> leaf_text(es[i].1)
            is Some && leaf_text(es[i].1)->0@ == leaf_shape(es[i].1)->Text_0);
    if fm.title is Some {
        assert(sh[0] == ("title"@, LeafShape::Text(fm.title->0@)));
        lemma_first_at(es, 0, "title"@);
    } else {
        lemma_key_index(es, "title"@, 0);
        assert(key_index(es, "title"@) is None) by {
            if key_index(es, "title"@) is Some {
                let j = key_index(es, "title"@)->0;
                assert(es[j].0@ == "title"@);
                assert(sh[j].0 == "title"@);
            }
        }
    }
    if fm.description is Some {
        assert(sh[a] == ("description"@, LeafShape::Text(fm.description->0@)));
        lemma_first_at(es, a, "description"@);
    } else {
        lemma_key_index(es, "description"@, 0);
        assert(key_index(es, "description"@) is None) by {
            if key_index(es, "description"@) is Some {
                let j = key_index(es, "description"@)->0;
                assert(sh[j].0 == "description"@);
            }
        }
    }
    if fm.date is Some {
        assert(sh[a + b] == ("date"@, LeafShape::Text(fm.date->0.spec_format())));
        lemma_first_at(es, a + b, "date"@);
        crate::date::lemma_date_round_trip(fm.date->0);
    } else {
        lemma_key_index(es, "date"@, 0);
        assert(key_index(es, "date"@) is None) by {
            if key_index(es, "date"@) is Some {
                let j = key_index(es, "date"@)->0;
                assert(sh[j].0 == "date"@);
            }
        }
    }
    if fm.kind is Some {
        assert(sh[a + b + c] == ("kind"@, LeafShape::Text(fm.kind->0@)));
        lemma_first_at(es, a + b + c, "kind"@);
    } else {
        lemma_key_index(es, "kind"@, 0);
        assert(key_index(es, "kind"@) is None) by {
            if key_index(es, "kind"@) is Some {
                let j = key_index(es, "kind"@)->0;
                assert(sh[j].0 == "kind"@);
            }
        }
    }
    assert(forall|i: int| 0 <= i < h ==> known_key((#[trigger] es[i]).0@));
    lemma_filter_split(es, h);
    let tail = es.subrange(h, es.len() as int);
    assert forall|j: int| 0 <= j < fm.rest@.len() implies entries_shape(tail)[j] == entries_shape(
        fm.rest@,
    )[j] by {
        assert(tail[j] == es[h + j]);
        assert(entries_shape(tail)[j] == (es[h + j].0@, leaf_shape(es[h + j].1)));
        assert(sh[h + j] == entries_shape(fm.rest@)[j]);
    }
    assert(entries_shape(tail) =~= entries_shape(fm.rest@));
    assert(entries_shape(es.filter(|e: (String, TomlLeaf)| !known_key(e.0@))) == entries_shape(
        es.subrange(h, es.len() as int),
    ));
}

/// Round trip of the document frame: splitting a serialized page recovers
/// the serialized metadata body, behind one leading newline, and the
/// contents exactly. This holds for any serialized body, provided the
/// contents hold no closing delimiter of their own and do not begin with a
/// newline, which the trailing blank line of the frame would swallow.
pub proof fn lemma_frame_round_trip(t: Seq<char>, c: Seq<char>)
    requires
        forall|p: int| 0 <= p < c.len() ==> !document::closing_at(c, p),
        document::nl_len_at(c, 0) == 0,
    ensures
        document::spec_split(spec_framed(t, c)) == Some((seq!['\n'] + t, c)),
{
    let f = spec_framed(t, c);
    let tn = t.len() as int;
    let base = 9 + tn;  // where the contents start in the framed text
    assert(f.len() == 9 + tn + c.len());
    assert(forall|x: int| 0 <= x < c.len() ==> f[base + x] == c[x]);
    // the document opens with the delimiter, no whitespace before it
    assert(f[0] == '+' && f[1] == '+' && f[2] == '+' && f[3] == '\n');
    assert(document::skip_ws(f, 0) == 0);
    assert(document::plus3_at(f, 0));
    // the frame's own closing delimiter
    assert(f[4 + tn] == '+' && f[5 + tn] == '+' && f[6 + tn] == '+');
    assert(f[7 + tn] == '\n' && f[8 + tn] == '\n');
    assert(document::closing_at(f, 4 + tn));
    // and none after it: not in the blank tail of the frame, nor in the
    // contents
    assert forall|p: int| 4 + tn < p < f.len() implies !document::closing_at(f, p) by {
        if p < base {
            assert(!document::plus3_at(f, p)) by {
                if p == 5 + tn {
                    assert(f[p + 2] == '\n');
                } else if p == 6 + tn {
                    assert(f[p + 1] == '\n');
                } else {
                    assert(f[p] == '\n');
                }
            }
        } else {
            let q = p - base;
            assert(!document::closing_at(c, q));
            assert(document::plus3_at(f, p) ==> document::plus3_at(c, q));
            assert(document::nl_len_at(f, p + 3) == document::nl_len_at(c, q + 3)) by {
                assert(forall|x: int| 0 <= x < c.len() ==> f[base + x] == c[x]);
            }
        }
    }
    document::lemma_last_closing_at(f, 3, f.len() as int, 4 + tn);
    // the two newlines after the closing delimiter are consumed, and the
    // contents follow
    assert(document::nl_len_at(f, 7 + tn) == 1);
    assert(document::nl_len_at(f, 8 + tn) == 1);
    assert(document::nl_len_at(f, base) == 0) by {
        if c.len() > 0 {
            assert(f[base] == c[0]);
            if base + 1 < f.len() {
                assert(f[base + 1] == c[1]);
            }
        }
    }
    assert(document::skip_nls(f, base) == base);
    assert(document::skip_nls(f, 8 + tn) == base);
    assert(document::skip_nls(f, 7 + tn) == base);
    assert(f.subrange(3, 4 + tn) =~= seq!['\n'] + t);
    assert(f.subrange(base, f.len() as int) =~= c);
}

impl Default for FrontMatter {
    /// All fields empty.
    fn default() -> (r: FrontMatter)
        ensures
            r.is_default(),
    {
        FrontMatter { title: None, description: None, date: None, kind: None, rest: Vec::new() }
    }
}

impl Default for RawPage {
    /// Default front matter and empty contents.
    fn default() -> (r: RawPage)
        ensures
            r.front_matter.is_default(),
            r.contents@ == Seq::<char>::empty(),
    {
        RawPage { front_matter: FrontMatter::default(), contents: String::new() }
    }
}

/// What a successful parse of document text `s` yields: the split that
/// `spec_split` describes, with default front matter when no block or a
/// whitespace-only one opens the document; otherwise the metadata body
/// parses as a TOML table and the front matter is exactly what those
/// entries denote.
pub open spec fn spec_parses(s: Seq<char>, rp: RawPage) -> bool {
    &&& rp.front_matter.wf()
    &&& match document::spec_split(s) {
        None => rp.front_matter.is_default() && rp.contents@ == s,
        Some(parts) => {
            &&& rp.contents@ == parts.1
            &&& if text::all_ws_seq(parts.0) {
                rp.front_matter.is_default()
            } else {
                toml_entries_of(parts.0) is Ok && fm_matches_entries(
                    rp.front_matter,
                    toml_entries_of(parts.0)->Ok_0,
                )
            }
        },
    }
}

/// When a document parses: it has no metadata block, a whitespace-only
/// one, or one whose body is a TOML table with well-typed recognized
/// fields.
pub open spec fn parse_ok(s: Seq<char>) -> bool {
    match document::spec_split(s) {
        None => true,
        Some(parts) => text::all_ws_seq(parts.0) || (toml_entries_of(parts.0) is Ok
            && entries_ok(toml_entries_of(parts.0)->Ok_0)),
    }
}

impl RawPage {
    /// Parse one document: split off the metadata block if present and
    /// interpret it as front matter.
    ///
    /// A document with no metadata block, or with a whitespace-only one,
    /// always parses, with default front matter; its content is the whole
    /// input in the first case and everything after the block otherwise.
    /// Parsing fails if and only if a non-empty metadata body is malformed
    /// TOML or a recognized field is ill typed, and the error chain then
    /// opens with `failed to parse front matter` and wraps the fault.
    pub fn from_str(s: &str) -> (r: Result<RawPage, Error>)
        ensures
            match r {
                Ok(rp) => spec_parses(s@, rp) && parse_ok(s@),
                Err(e) => {
                    &&& !parse_ok(s@)
                    &&& e@.len() == 2
                    &&& e@[0] == "failed to parse front matter"@
                    &&& (toml_entries_of((document::spec_split(s@)->0).0) is Err ==> e@[1]
                        == toml_entries_of((document::spec_split(s@)->0).0)->Err_0)
                },
            },
    {
        let v = text::chars_of(s);
        match document::split_document(v.as_slice()) {
            None => Ok(RawPage { front_matter: FrontMatter::default(), contents: s.to_owned() }),
            Some((body, contents)) => {
                let contents = text::string_of(&contents);
                if text::all_ws(body.as_slice()) {
                    return Ok(RawPage { front_matter: FrontMatter::default(), contents });
                }
                let body_text = text::string_of(&body);
                match parse_toml_entries(body_text.as_str()) {
                    Err(msg) => Err(
                        Error::new(msg).context("failed to parse front matter".to_owned()),
                    ),
                    Ok(entries) => {
                        match FrontMatter::from_entries(entries) {
                            Err(e) => Err(e.context("failed to parse front matter".to_owned())),
                            Ok(front_matter) => Ok(RawPage { front_matter, contents }),
                        }
                    },
                }
            },
        }
    }
}

} // verus!
