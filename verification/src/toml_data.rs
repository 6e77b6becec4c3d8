//! The open part of metadata and configuration: a flat list of key/value
//! entries as read from a TOML table.
//!
//! Recognized keys are inspected, so their string payloads are held as plain
//! text; every other value is carried through opaquely and handed back to the
//! TOML serializer untouched.

use vstd::prelude::*;

verus! {

/// The TOML value type, carried through this library opaquely.
#[verifier::external_type_specification]
#[verifier::external_body]
pub struct ExTomlValue(toml::Value);

/// One value of a top-level TOML table: its text if it is a string, any
/// other value untouched.
#[derive(Debug, PartialEq)]
pub enum TomlLeaf {
    Text(String),
    Other(toml::Value),
}

/// What parsing a text as a TOML table yields: the table's entries in its
/// key order, or the parser's error message. The TOML parser is a pure
/// function of the text, so its outcome carries a name.
pub uninterp spec fn toml_entries_of(s: Seq<char>) -> Result<Seq<(String, TomlLeaf)>, Seq<char>>;

/// What writing entries as TOML text yields: the text, or the writer's
/// error message. The TOML writer is a pure function of the entries, so its
/// outcome carries a name.
pub uninterp spec fn toml_text_of(es: Seq<(String, TomlLeaf)>) -> Result<Seq<char>, Seq<char>>;

/// Relies on `toml::from_str` parsing the text as a TOML table, and on the
/// table iterating its entries in its key order; a string value is unwrapped
/// to its text, every other value is kept whole. The error text is the TOML
/// parser's own message, which names the line and column of the fault.
#[verifier::external_body]
pub(crate) fn parse_toml_entries(s: &str) -> (r: Result<Vec<(String, TomlLeaf)>, String>)
    ensures
        match r {
            Ok(es) => toml_entries_of(s@) == Ok::<Seq<(String, TomlLeaf)>, Seq<char>>(es@),
            Err(m) => toml_entries_of(s@) == Err::<Seq<(String, TomlLeaf)>, Seq<char>>(m@),
        },
{
    match toml::from_str::<toml::Table>(s) {
        Ok(table) => Ok(table.into_iter().map(|(k, v)| match v {
            toml::Value::String(text) => (k, TomlLeaf::Text(text)),
            other => (k, TomlLeaf::Other(other)),
        }).collect()),
        Err(e) => Err(format!("{}", e)),
    }
}

/// Relies on `toml::to_string_pretty`: entries become one TOML table, a text
/// leaf becoming a TOML string again, and the table is written as TOML text
/// in the table's own key order.
#[verifier::external_body]
pub(crate) fn entries_to_toml_text(entries: Vec<(String, TomlLeaf)>) -> (r: Result<String, String>)
    ensures
        match r {
            Ok(t) => toml_text_of(entries@) == Ok::<Seq<char>, Seq<char>>(t@),
            Err(m) => toml_text_of(entries@) == Err::<Seq<char>, Seq<char>>(m@),
        },
{
    let table: toml::Table = entries.into_iter().map(|(k, l)| match l {
        TomlLeaf::Text(text) => (k, toml::Value::String(text)),
        TomlLeaf::Other(other) => (k, other),
    }).collect();
    toml::to_string_pretty(&table).map_err(|e| format!("{}", e))
}

/// First index at or after `i` whose key reads `key`.
pub open spec fn key_index_from(
    es: Seq<(String, TomlLeaf)>,
    key: Seq<char>,
    i: int,
) -> Option<int>
    decreases es.len() - i,
        when 0 <= i <= es.len()
{
    if i >= es.len() {
        None
    } else if es[i].0@ == key {
        Some(i)
    } else {
        key_index_from(es, key, i + 1)
    }
}

/// First index whose key reads `key`.
pub open spec fn key_index(es: Seq<(String, TomlLeaf)>, key: Seq<char>) -> Option<int> {
    key_index_from(es, key, 0)
}

/// Appending an entry leaves an earlier first match in place, and supplies
/// the match if there was none and the new key fits.
pub proof fn lemma_key_index_push(es: Seq<(String, TomlLeaf)>, e: (String, TomlLeaf), key: Seq<char>, i: int)
    requires
        0 <= i <= es.len(),
    ensures
        key_index_from(es.push(e), key, i) == match key_index_from(es, key, i) {
            Some(j) => Some(j),
            None => if e.0@ == key {
                Some(es.len() as int)
            } else {
                None
            },
        },
    decreases es.len() - i,
{
    assert(es.push(e)[es.len() as int] == e);
    if i < es.len() {
        assert(es.push(e)[i] == es[i]);
        lemma_key_index_push(es, e, key, i + 1);
    }
}

} // verus!
