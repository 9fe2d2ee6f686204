//! Reading TOML text with the `toml` crate, and editing a manifest's metadata
//! table with the `toml_edit` crate, which keeps the rest of the document as
//! it was written.

use vstd::prelude::*;

use crate::sync::{InlineModel, InlineValue};
use crate::toml_value::TomlValue;

verus! {

/// A parsed TOML value of the `toml` crate.
#[verifier::external_type_specification]
#[verifier::external_body]
pub struct ExTomlValue(toml::Value);

/// A table of the `toml` crate.
#[verifier::external_type_specification]
#[verifier::external_body]
#[verifier::reject_recursive_types(K)]
#[verifier::reject_recursive_types(V)]
pub struct ExTomlMap<K, V>(toml::map::Map<K, V>);

/// An editable TOML document of the `toml_edit` crate.
#[verifier::external_type_specification]
#[verifier::external_body]
pub struct ExDocumentMut(toml_edit::DocumentMut);

/// A table of an editable TOML document.
#[verifier::external_type_specification]
#[verifier::external_body]
pub struct ExEditTable(toml_edit::Table);

/// The document that `toml` parses from a text, its values held as
/// [`TomlValue`]s (floats and date-times as `Other`), or none when the text is
/// not valid TOML.
pub uninterp spec fn toml_document(source: Seq<char>) -> Option<Seq<(String, TomlValue)>>;

/// One `toml` value held as a [`TomlValue`].
#[verifier::external_body]
fn value_of(value: &toml::Value) -> TomlValue {
    match value {
        toml::Value::String(text) => TomlValue::String(text.clone()),
        toml::Value::Integer(number) => TomlValue::Integer(*number),
        toml::Value::Boolean(flag) => TomlValue::Boolean(*flag),
        toml::Value::Array(items) => TomlValue::Array(items.iter().map(value_of).collect()),
        toml::Value::Table(table) => TomlValue::Table(entries_of(table)),
        toml::Value::Float(_) | toml::Value::Datetime(_) => TomlValue::Other,
    }
}

/// The entries of a `toml` table, in the table's order.
#[verifier::external_body]
fn entries_of(table: &toml::Table) -> Vec<(String, TomlValue)> {
    table.iter().map(|(key, value)| (key.clone(), value_of(value))).collect()
}

/// Parses TOML text with `toml::Table`'s `FromStr`. The contract claims that
/// the result is a function of the text alone ([`toml_document`]): the
/// document when `toml` accepts the text, else `toml`'s error message. What
/// `toml` accepts, and its messages, are left unsaid.
#[verifier::external_body]
pub(crate) fn parse_toml(source: &str) -> (r: Result<Vec<(String, TomlValue)>, String>)
    ensures
        match r {
            Ok(doc) => toml_document(source@) == Some(doc@),
            Err(_) => toml_document(source@) is None,
        },
{
    match source.parse::<toml::Table>() {
        Ok(table) => Ok(entries_of(&table)),
        Err(error) => Err(error.to_string()),
    }
}

/// A value of an editable TOML document.
#[verifier::external_type_specification]
#[verifier::external_body]
pub struct ExEditValue(toml_edit::Value);

/// The metadata entries to write, by feature, each as the fields of its
/// inline table.
pub open spec fn edit_views(v: Seq<(String, Vec<(String, InlineValue)>)>) -> Seq<(Seq<char>, Seq<(Seq<char>, InlineModel)>)> {
    v.map_values(|e: (String, Vec<(String, InlineValue)>)| (e.0@, crate::sync::field_views(e.1@)))
}

/// What a `toml_edit` table holds, as far as editing needs: for the table
/// itself (the empty path) and for every table nested in it through table
/// items (the path of keys leading to it), the keys that hold an item.
pub uninterp spec fn edit_tables(t: toml_edit::Table) -> Map<Seq<Seq<char>>, Set<Seq<char>>>;

/// The tables of the root of the document that `toml_edit` parses from a
/// text, or none when `toml_edit` refuses the text.
pub uninterp spec fn edit_document(source: Seq<char>) -> Option<Map<Seq<Seq<char>>, Set<Seq<char>>>>;

/// The tables of an empty table: the table itself, without keys.
pub open spec fn empty_tables() -> Map<Seq<Seq<char>>, Set<Seq<char>>> {
    map![Seq::<Seq<char>>::empty() => Set::<Seq<char>>::empty()]
}

/// The tables held under `key`, as seen from the table at `key`.
pub open spec fn tables_under(m: Map<Seq<Seq<char>>, Set<Seq<char>>>, key: Seq<char>) -> Map<Seq<Seq<char>>, Set<Seq<char>>> {
    Map::new(
        |p: Seq<Seq<char>>| m.dom().contains(seq![key] + p),
        |p: Seq<Seq<char>>| m[seq![key] + p],
    )
}

/// `m` with the tables under `key` replaced by `c` (none when `c` is empty).
pub open spec fn graft(
    m: Map<Seq<Seq<char>>, Set<Seq<char>>>,
    key: Seq<char>,
    c: Map<Seq<Seq<char>>, Set<Seq<char>>>,
) -> Map<Seq<Seq<char>>, Set<Seq<char>>> {
    Map::new(
        |p: Seq<Seq<char>>|
            if p.len() > 0 && p[0] == key {
                c.dom().contains(p.drop_first())
            } else {
                m.dom().contains(p)
            },
        |p: Seq<Seq<char>>|
            if p.len() > 0 && p[0] == key {
                c[p.drop_first()]
            } else {
                m[p]
            },
    )
}

/// `m` with `key` among the keys of the table itself.
pub open spec fn with_key(m: Map<Seq<Seq<char>>, Set<Seq<char>>>, key: Seq<char>) -> Map<Seq<Seq<char>>, Set<Seq<char>>> {
    m.insert(Seq::empty(), m[Seq::empty()].insert(key))
}

/// `m` without `key` among the keys of the table itself.
pub open spec fn without_key(m: Map<Seq<Seq<char>>, Set<Seq<char>>>, key: Seq<char>) -> Map<Seq<Seq<char>>, Set<Seq<char>>> {
    m.insert(Seq::empty(), m[Seq::empty()].remove(key))
}

/// `m` keeping only the reserved keys of the table itself, and the tables
/// under them.
pub open spec fn reserved_only(m: Map<Seq<Seq<char>>, Set<Seq<char>>>) -> Map<Seq<Seq<char>>, Set<Seq<char>>> {
    Map::new(
        |p: Seq<Seq<char>>| m.dom().contains(p) && (p.len() == 0 || crate::parse::reserved_key(p[0])),
        |p: Seq<Seq<char>>|
            if p.len() == 0 {
                m[p].filter(|k: Seq<char>| crate::parse::reserved_key(k))
            } else {
                m[p]
            },
    )
}

/// A new, empty table (`Table::new`).
#[verifier::external_body]
pub(crate) fn new_table() -> (t: toml_edit::Table)
    ensures
        edit_tables(t) == empty_tables(),
{
    toml_edit::Table::new()
}

/// Whether a table holds an item under `key` (`Table::contains_key`).
#[verifier::external_body]
pub(crate) fn has_key(t: &toml_edit::Table, key: &str) -> (r: bool)
    ensures
        r == edit_tables(*t)[Seq::empty()].contains(key@),
{
    t.contains_key(key)
}

/// Stores a new, empty table under `key` (`Table::insert` with
/// `Item::Table(Table::new())`): the key is held, and the only table under
/// it is the new one.
#[verifier::external_body]
pub(crate) fn insert_table(t: &mut toml_edit::Table, key: &str)
    ensures
        edit_tables(*final(t)) == graft(with_key(edit_tables(*old(t)), key@), key@, empty_tables()),
{
    t.insert(key, toml_edit::Item::Table(toml_edit::Table::new()));
}

/// The inline table of one metadata entry, field by field.
#[verifier::external_body]
fn inline_of(fields: &Vec<(String, InlineValue)>) -> toml_edit::Value {
    let mut inline = toml_edit::InlineTable::new();
    for (key, value) in fields {
        let value = match value {
            InlineValue::Text(text) => toml_edit::Value::from(text.as_str()),
            InlineValue::Flag(flag) => toml_edit::Value::from(*flag),
            InlineValue::List(items) => toml_edit::Value::Array(items.iter().map(String::as_str).collect()),
        };
        inline.insert(key.as_str(), value);
    }
    toml_edit::Value::InlineTable(inline)
}

/// Stores an inline table under `key` (`Table::insert` with an
/// `Item::Value`): the key is held, and no table is under it.
#[verifier::external_body]
pub(crate) fn insert_inline(t: &mut toml_edit::Table, key: &str, fields: &Vec<(String, InlineValue)>)
    ensures
        edit_tables(*final(t)) == graft(with_key(edit_tables(*old(t)), key@), key@, Map::empty()),
{
    t.insert(key, toml_edit::Item::Value(inline_of(fields)));
}

/// Removes `key` and what it holds (`Table::remove`).
#[verifier::external_body]
pub(crate) fn remove_key(t: &mut toml_edit::Table, key: &str)
    ensures
        edit_tables(*final(t)) == graft(without_key(edit_tables(*old(t)), key@), key@, Map::empty()),
{
    t.remove(key);
}

/// Keeps only the reserved keys (`Table::retain`, with
/// [`crate::sync::is_feature_entry_key`] deciding what goes).
#[verifier::external_body]
pub(crate) fn keep_reserved_keys(t: &mut toml_edit::Table)
    ensures
        edit_tables(*final(t)) == reserved_only(edit_tables(*old(t))),
{
    t.retain(|key, _| !crate::sync::is_feature_entry_key(key));
}

/// Removes every key of a table (`Table::clear`).
#[verifier::external_body]
pub(crate) fn clear_table(t: &mut toml_edit::Table)
    ensures
        edit_tables(*final(t)) == empty_tables(),
{
    t.clear();
}

/// Exchanges the table held under `key` with `child` (`Table::get_mut`,
/// `Item::as_table_mut`, then `std::mem::swap`), when `key` holds a table;
/// else changes nothing and answers false.
#[verifier::external_body]
pub(crate) fn swap_table(t: &mut toml_edit::Table, key: &str, child: &mut toml_edit::Table) -> (r: bool)
    ensures
        r == edit_tables(*old(t)).dom().contains(seq![key@]),
        r ==> edit_tables(*final(t)) == graft(edit_tables(*old(t)), key@, edit_tables(*old(child))),
        r ==> edit_tables(*final(child)) == tables_under(edit_tables(*old(t)), key@),
        !r ==> *final(t) == *old(t),
        !r ==> *final(child) == *old(child),
{
    match t.get_mut(key).and_then(toml_edit::Item::as_table_mut) {
        Some(table) => {
            std::mem::swap(table, child);
            true
        },
        None => false,
    }
}

/// Parses a text with `toml_edit` as a `DocumentMut`, handing out its root
/// table (exchanged for an empty one). The contract claims that the root's
/// tables are a function of the text alone ([`edit_document`]).
#[verifier::external_body]
pub(crate) fn parse_document(contents: &str) -> (r: Result<(toml_edit::DocumentMut, toml_edit::Table), String>)
    ensures
        match r {
            Ok((_, root)) => edit_document(contents@) == Some(edit_tables(root)) && edit_tables(root).dom().contains(
                Seq::empty(),
            ),
            Err(_) => edit_document(contents@) is None,
        },
{
    let mut document = contents.parse::<toml_edit::DocumentMut>().map_err(|error| error.to_string())?;
    let mut root = toml_edit::Table::new();
    std::mem::swap(document.as_table_mut(), &mut root);
    Ok((document, root))
}

/// Prints a document with `root` put back as its root table
/// (`DocumentMut`'s `Display`). What the text looks like is left unsaid.
#[verifier::external_body]
pub(crate) fn print_document(document: toml_edit::DocumentMut, root: toml_edit::Table) -> String {
    let mut document = document;
    let mut root = root;
    std::mem::swap(document.as_table_mut(), &mut root);
    document.to_string()
}

} // verus!
