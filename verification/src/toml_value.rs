//! A parsed TOML document held as plain values.

use vstd::prelude::*;

use crate::order::{key_index, key_value, lemma_key_index, pairs};
use crate::text::views;

verus! {

/// One TOML value. Tables keep their entries in the order the parser gives
/// them; a TOML table never repeats a key.
#[derive(Debug)]
pub enum TomlValue {
    /// A string.
    String(String),
    /// An integer.
    Integer(i64),
    /// A boolean.
    Boolean(bool),
    /// An array.
    Array(Vec<TomlValue>),
    /// A table or inline table.
    Table(Vec<(String, TomlValue)>),
    /// A float or a date-time, which no manifest field accepts.
    Other,
}

/// The value stored under `key` in a table's entries.
pub open spec fn entry(es: Seq<(String, TomlValue)>, key: Seq<char>) -> Option<TomlValue> {
    key_value(pairs(es), key)
}

/// Looks up `key` among a table's entries.
pub fn get_entry<'a>(es: &'a Vec<(String, TomlValue)>, key: &str) -> (r: Option<&'a TomlValue>)
    ensures
        match r {
            Some(v) => entry(es@, key@) == Some(*v),
            None => entry(es@, key@) is None,
        },
{
    match crate::order::key_find(es, key) {
        Some(i) => {
            assert(pairs(es@)[i as int].1 == es@[i as int].1);
            Some(&es[i].1)
        },
        None => None,
    }
}

/// The characters of a string value.
pub open spec fn string_value(v: TomlValue) -> Option<Seq<char>> {
    match v {
        TomlValue::String(s) => Some(s@),
        _ => None,
    }
}

/// The characters of each element of an array of strings, if it is one.
pub open spec fn strings_from(vs: Seq<TomlValue>) -> Option<Seq<Seq<char>>>
    decreases vs.len(),
{
    if vs.len() == 0 {
        Some(Seq::empty())
    } else {
        match (strings_from(vs.drop_last()), vs.last()) {
            (Some(prefix), TomlValue::String(s)) => Some(prefix.push(s@)),
            _ => None,
        }
    }
}

/// An array of strings, as characters.
pub open spec fn string_list(v: TomlValue) -> Option<Seq<Seq<char>>> {
    match v {
        TomlValue::Array(vs) => strings_from(vs@),
        _ => None,
    }
}

/// Copies an array of strings.
pub fn string_list_exec(v: &TomlValue) -> (r: Option<Vec<String>>)
    ensures
        match r {
            Some(l) => string_list(*v) == Some(views(l@)),
            None => string_list(*v) is None,
        },
{
    match v {
        TomlValue::Array(vs) => {
            let mut out: Vec<String> = Vec::new();
            let mut i: usize = 0;
            assert(string_list(*v) == strings_from(vs@));
            while i < vs.len()
                invariant
                    i <= vs@.len(),
                    string_list(*v) == strings_from(vs@),
                    strings_from(vs@.take(i as int)) == Some(views(out@)),
                decreases vs@.len() - i,
            {
                assert(vs@.take(i as int + 1).drop_last() == vs@.take(i as int));
                assert(vs@.take(i as int + 1).last() == vs@[i as int]);
                match &vs[i] {
                    TomlValue::String(s) => {
                        let ghost before = views(out@);
                        out.push(s.clone());
                        assert(views(out@) =~= before.push(s@));
                    },
                    _ => {
                        proof {
                            assert(strings_from(vs@.take(i as int + 1)) is None);
                            lemma_strings_prefix(vs@, i as int + 1);
                            assert(string_list(*v) == strings_from(vs@));
                        }
                        return None;
                    },
                }
                i = i + 1;
            }
            assert(vs@.take(vs@.len() as int) == vs@);
            assert(string_list(*v) == strings_from(vs@));
            Some(out)
        },
        _ => None,
    }
}

/// A list whose prefix is not all strings is not all strings.
pub proof fn lemma_strings_prefix(vs: Seq<TomlValue>, n: int)
    requires
        0 <= n <= vs.len(),
        strings_from(vs.take(n)) is None,
    ensures
        strings_from(vs) is None,
    decreases vs.len() - n,
{
    if n < vs.len() {
        assert(vs.take(n + 1).drop_last() == vs.take(n));
        lemma_strings_prefix(vs, n + 1);
    } else {
        assert(vs.take(n) == vs);
    }
}

} // verus!
