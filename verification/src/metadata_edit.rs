//! Rewriting the feature metadata of a parsed manifest: the tables a sync
//! walks to, the keys it drops, and the entries it writes, decided here over
//! the tables of the document and carried out by `toml_edit`.

use vstd::prelude::*;

use crate::sync::InlineValue;
use crate::text::{concat3, owned};
use crate::toml_text::{
    clear_table, edit_tables, edit_views, empty_tables, graft, has_key, insert_inline, insert_table,
    keep_reserved_keys, new_table, remove_key, reserved_only, swap_table, tables_under, with_key, without_key,
};

verus! {

/// The tables of a table after `key` is made sure to hold a table: a new,
/// empty one is added when `key` is absent.
pub open spec fn ensured(m: Map<Seq<Seq<char>>, Set<Seq<char>>>, key: Seq<char>) -> Map<Seq<Seq<char>>, Set<Seq<char>>> {
    if m[Seq::empty()].contains(key) {
        m
    } else {
        graft(with_key(m, key), key, empty_tables())
    }
}

/// The message when a key on the way to the metadata holds no table.
pub open spec fn child_table_error(key: Seq<char>) -> Seq<char> {
    "expected `"@ + key + "` to be a TOML table while editing the manifest"@
}

/// The message when the `features` entry of the metadata table is no table.
pub open spec fn features_error() -> Seq<char> {
    "expected `features` to be a TOML table while editing"@
}

/// The metadata table with its feature entries dropped and its `features`
/// table emptied; an error when `features` holds something else.
pub open spec fn cleared(m: Map<Seq<Seq<char>>, Set<Seq<char>>>) -> Result<Map<Seq<Seq<char>>, Set<Seq<char>>>, Seq<char>> {
    let k = reserved_only(m);
    if k[Seq::empty()].contains("features"@) {
        if k.dom().contains(seq!["features"@]) {
            Ok(graft(k, "features"@, empty_tables()))
        } else {
            Err(features_error())
        }
    } else {
        Ok(k)
    }
}

/// A table after inline entries are stored under `names`, in order.
pub open spec fn with_entries(m: Map<Seq<Seq<char>>, Set<Seq<char>>>, names: Seq<Seq<char>>) -> Map<Seq<Seq<char>>, Set<Seq<char>>>
    decreases names.len(),
{
    if names.len() == 0 {
        m
    } else {
        graft(with_key(with_entries(m, names.drop_last()), names.last()), names.last(), Map::empty())
    }
}

/// The names of the entries a sync writes.
pub open spec fn entry_names(v: Seq<(String, Vec<(String, InlineValue)>)>) -> Seq<Seq<char>> {
    edit_views(v).map_values(|e: (Seq<char>, Seq<(Seq<char>, crate::sync::InlineModel)>)| e.0)
}

/// The metadata table after a sync writes `names`: feature entries dropped,
/// then, in the flat layout, the `features` table dropped and the entries
/// stored in the table itself; in the structured layout, the entries stored
/// in its `features` table, added when absent.
pub open spec fn filled(
    m: Map<Seq<Seq<char>>, Set<Seq<char>>>,
    structured: bool,
    names: Seq<Seq<char>>,
) -> Result<Map<Seq<Seq<char>>, Set<Seq<char>>>, Seq<char>> {
    match cleared(m) {
        Err(e) => Err(e),
        Ok(c) => if structured {
            let e = ensured(c, "features"@);
            if e.dom().contains(seq!["features"@]) {
                Ok(graft(e, "features"@, with_entries(tables_under(e, "features"@), names)))
            } else {
                Err(child_table_error("features"@))
            }
        } else {
            Ok(with_entries(graft(without_key(c, "features"@), "features"@, Map::empty()), names))
        },
    }
}

/// The tables of a document's root after a sync rewrites the metadata table
/// `table` under `[package.metadata]`, the tables on the way added when
/// absent; an error when one of them holds something else.
pub open spec fn edited_tables(
    root: Map<Seq<Seq<char>>, Set<Seq<char>>>,
    table: Seq<char>,
    structured: bool,
    names: Seq<Seq<char>>,
) -> Result<Map<Seq<Seq<char>>, Set<Seq<char>>>, Seq<char>> {
    let r1 = ensured(root, "package"@);
    if !r1.dom().contains(seq!["package"@]) {
        Err(child_table_error("package"@))
    } else {
        let p1 = ensured(tables_under(r1, "package"@), "metadata"@);
        if !p1.dom().contains(seq!["metadata"@]) {
            Err(child_table_error("metadata"@))
        } else {
            let m1 = ensured(tables_under(p1, "metadata"@), table);
            if !m1.dom().contains(seq![table]) {
                Err(child_table_error(table))
            } else {
                match filled(tables_under(m1, table), structured, names) {
                    Err(e) => Err(e),
                    Ok(t) => Ok(graft(r1, "package"@, graft(p1, "metadata"@, graft(m1, table, t)))),
                }
            }
        }
    }
}

/// Replacing what is under a key twice leaves the second replacement.
pub proof fn lemma_graft_twice(
    m: Map<Seq<Seq<char>>, Set<Seq<char>>>,
    key: Seq<char>,
    a: Map<Seq<Seq<char>>, Set<Seq<char>>>,
    b: Map<Seq<Seq<char>>, Set<Seq<char>>>,
)
    ensures
        graft(graft(m, key, a), key, b) == graft(m, key, b),
{
    assert(graft(graft(m, key, a), key, b) =~= graft(m, key, b));
}

/// A key holds a table after a replacement exactly when the replacement has
/// a table itself.
pub proof fn lemma_graft_holds(m: Map<Seq<Seq<char>>, Set<Seq<char>>>, key: Seq<char>, c: Map<Seq<Seq<char>>, Set<Seq<char>>>)
    ensures
        graft(m, key, c).dom().contains(seq![key]) == c.dom().contains(Seq::empty()),
{
    assert(seq![key].drop_first() =~= Seq::<Seq<char>>::empty());
}

/// Takes the table under `key` out of `parent`, adding an empty one when
/// `key` is absent; an error when `key` holds something else.
fn take_child(parent: &mut toml_edit::Table, key: &str) -> (r: Result<toml_edit::Table, String>)
    ensures
        ensured(edit_tables(*old(parent)), key@).dom().contains(seq![key@]) ==> (r matches Ok(c) && edit_tables(
            *final(parent),
        ) == graft(ensured(edit_tables(*old(parent)), key@), key@, empty_tables()) && edit_tables(c) == tables_under(
            ensured(edit_tables(*old(parent)), key@),
            key@,
        )),
        !ensured(edit_tables(*old(parent)), key@).dom().contains(seq![key@]) ==> (r matches Err(e) && e@
            == child_table_error(key@)),
{
    if !has_key(parent, key) {
        insert_table(parent, key);
    }
    let mut child = new_table();
    if swap_table(parent, key, &mut child) {
        Ok(child)
    } else {
        Err(concat3("expected `", key, "` to be a TOML table while editing the manifest"))
    }
}

/// Puts a table back under `key`, where a table is held.
fn put_child(parent: &mut toml_edit::Table, key: &str, child: toml_edit::Table)
    requires
        edit_tables(*old(parent)).dom().contains(seq![key@]),
    ensures
        edit_tables(*final(parent)) == graft(edit_tables(*old(parent)), key@, edit_tables(child)),
{
    let mut child = child;
    let placed = swap_table(parent, key, &mut child);
    assert(placed);
}

/// Drops the feature entries of a metadata table and empties its `features`
/// table; an error when `features` holds something else.
fn clear_entries(t: &mut toml_edit::Table) -> (r: Result<(), String>)
    ensures
        match cleared(edit_tables(*old(t))) {
            Ok(c) => r is Ok && edit_tables(*final(t)) == c,
            Err(e) => r matches Err(x) && x@ == e,
        },
{
    keep_reserved_keys(t);
    if has_key(t, "features") {
        let mut features = new_table();
        if swap_table(t, "features", &mut features) {
            clear_table(&mut features);
            proof {
                lemma_graft_holds(reserved_only(edit_tables(*old(t))), "features"@, empty_tables());
            }
            put_child(t, "features", features);
            proof {
                lemma_graft_twice(reserved_only(edit_tables(*old(t))), "features"@, empty_tables(), empty_tables());
            }
            Ok(())
        } else {
            Err(owned("expected `features` to be a TOML table while editing"))
        }
    } else {
        Ok(())
    }
}

/// Stores the inline entries in a table, in order.
fn insert_entries(t: &mut toml_edit::Table, entries: &Vec<(String, Vec<(String, InlineValue)>)>)
    ensures
        edit_tables(*final(t)) == with_entries(edit_tables(*old(t)), entry_names(entries@)),
{
    let ghost start = edit_tables(*t);
    let ghost names = entry_names(entries@);
    let mut i: usize = 0;
    while i < entries.len()
        invariant
            i <= entries@.len(),
            names == entry_names(entries@),
            names.len() == entries@.len(),
            edit_tables(*t) == with_entries(start, names.take(i as int)),
        decreases entries@.len() - i,
    {
        assert(names.take(i as int + 1).drop_last() == names.take(i as int));
        assert(names[i as int] == entries@[i as int].0@);
        insert_inline(t, entries[i].0.as_str(), &entries[i].1);
        i = i + 1;
    }
    assert(names.take(entries@.len() as int) == names);
}

/// Rewrites a metadata table: drops its feature entries, then stores the
/// entries in it (flat) or in its `features` table (structured).
fn fill_table(t: &mut toml_edit::Table, structured: bool, entries: &Vec<(String, Vec<(String, InlineValue)>)>) -> (r: Result<(), String>)
    ensures
        match filled(edit_tables(*old(t)), structured, entry_names(entries@)) {
            Ok(c) => r is Ok && edit_tables(*final(t)) == c,
            Err(e) => r matches Err(x) && x@ == e,
        },
{
    match clear_entries(t) {
        Ok(()) => {},
        Err(e) => {
            return Err(e);
        },
    }
    let ghost c = edit_tables(*t);
    if structured {
        let mut features = match take_child(t, "features") {
            Ok(f) => f,
            Err(e) => {
                return Err(e);
            },
        };
        let ghost e = ensured(c, "features"@);
        insert_entries(&mut features, entries);
        proof {
            lemma_graft_holds(e, "features"@, empty_tables());
        }
        let ghost ft = edit_tables(features);
        put_child(t, "features", features);
        proof {
            lemma_graft_twice(e, "features"@, empty_tables(), ft);
        }
        Ok(())
    } else {
        remove_key(t, "features");
        insert_entries(t, entries);
        Ok(())
    }
}

/// Rewrites the metadata table `table` under `[package.metadata]` of a
/// document's root, adding the tables on the way when absent.
pub fn edit_metadata(
    root: &mut toml_edit::Table,
    table: &str,
    structured: bool,
    entries: &Vec<(String, Vec<(String, InlineValue)>)>,
) -> (r: Result<(), String>)
    ensures
        match edited_tables(edit_tables(*old(root)), table@, structured, entry_names(entries@)) {
            Ok(t) => r is Ok && edit_tables(*final(root)) == t,
            Err(e) => r matches Err(x) && x@ == e,
        },
{
    let ghost r1 = ensured(edit_tables(*root), "package"@);
    let mut package = match take_child(root, "package") {
        Ok(x) => x,
        Err(e) => {
            return Err(e);
        },
    };
    let ghost p1 = ensured(edit_tables(package), "metadata"@);
    let mut metadata = match take_child(&mut package, "metadata") {
        Ok(x) => x,
        Err(e) => {
            return Err(e);
        },
    };
    let ghost m1 = ensured(edit_tables(metadata), table@);
    let mut target = match take_child(&mut metadata, table) {
        Ok(x) => x,
        Err(e) => {
            return Err(e);
        },
    };
    match fill_table(&mut target, structured, entries) {
        Ok(()) => {},
        Err(e) => {
            return Err(e);
        },
    }
    proof {
        lemma_graft_holds(m1, table@, empty_tables());
        lemma_graft_holds(p1, "metadata"@, empty_tables());
        lemma_graft_holds(r1, "package"@, empty_tables());
    }
    let ghost tt = edit_tables(target);
    put_child(&mut metadata, table, target);
    proof {
        lemma_graft_twice(m1, table@, empty_tables(), tt);
    }
    let ghost mt = edit_tables(metadata);
    put_child(&mut package, "metadata", metadata);
    proof {
        lemma_graft_twice(p1, "metadata"@, empty_tables(), mt);
    }
    let ghost pt = edit_tables(package);
    put_child(root, "package", package);
    proof {
        lemma_graft_twice(r1, "package"@, empty_tables(), pt);
    }
    Ok(())
}


/// The path of the table that holds the entries a sync writes.
pub open spec fn entries_path(table: Seq<char>, structured: bool) -> Seq<Seq<char>> {
    if structured {
        seq!["package"@, "metadata"@, table, "features"@]
    } else {
        seq!["package"@, "metadata"@, table]
    }
}

/// Whether `key` of the table itself holds a table.
pub open spec fn holds_table(m: Map<Seq<Seq<char>>, Set<Seq<char>>>, key: Seq<char>) -> bool {
    m[Seq::empty()].contains(key) && m.dom().contains(seq![key])
}

/// What lies under a key after a replacement is the replacement.
pub proof fn lemma_graft_at(
    m: Map<Seq<Seq<char>>, Set<Seq<char>>>,
    key: Seq<char>,
    c: Map<Seq<Seq<char>>, Set<Seq<char>>>,
    q: Seq<Seq<char>>,
)
    ensures
        graft(m, key, c).dom().contains(seq![key] + q) == c.dom().contains(q),
        c.dom().contains(q) ==> graft(m, key, c)[seq![key] + q] == c[q],
{
    assert((seq![key] + q).drop_first() =~= q);
    assert((seq![key] + q)[0] == key);
}

/// Stored entries are held by the table itself, and hold no table.
pub proof fn lemma_with_entries(m: Map<Seq<Seq<char>>, Set<Seq<char>>>, names: Seq<Seq<char>>)
    ensures
        m.dom().contains(Seq::empty()) ==> with_entries(m, names).dom().contains(Seq::empty()),
        names.len() > 0 ==> with_entries(m, names).dom().contains(Seq::empty()),
        m[Seq::empty()].subset_of(with_entries(m, names)[Seq::empty()]),
        forall|i: int|
            0 <= i < names.len() ==> with_entries(m, names)[Seq::empty()].contains(#[trigger] names[i])
                && !with_entries(m, names).dom().contains(seq![names[i]]),
    decreases names.len(),
{
    if names.len() > 0 {
        let init = names.drop_last();
        let n = names.last();
        lemma_with_entries(m, init);
        let w = with_entries(m, init);
        let r = with_entries(m, names);
        assert(r == graft(with_key(w, n), n, Map::empty()));
        assert(r[Seq::empty()] == w[Seq::empty()].insert(n));
        assert forall|i: int| 0 <= i < names.len() implies r[Seq::empty()].contains(#[trigger] names[i])
            && !r.dom().contains(seq![names[i]]) by {
            lemma_graft_at(with_key(w, n), n, Map::empty(), Seq::empty());
            assert(seq![names[i]] =~= seq![names[i]] + Seq::<Seq<char>>::empty());
            if i < init.len() {
                assert(init[i] == names[i]);
                if names[i] != n {
                    assert(seq![names[i]][0] == names[i]);
                    assert(seq![names[i]] != Seq::<Seq<char>>::empty());
                }
            }
        }
    }
}

/// The tables the rewrite writes the entries into, before they are put back
/// in place: the metadata table, or its `features` table.
pub open spec fn written_table(
    root: Map<Seq<Seq<char>>, Set<Seq<char>>>,
    table: Seq<char>,
    structured: bool,
    names: Seq<Seq<char>>,
) -> Map<Seq<Seq<char>>, Set<Seq<char>>> {
    let r1 = ensured(root, "package"@);
    let p1 = ensured(tables_under(r1, "package"@), "metadata"@);
    let m1 = ensured(tables_under(p1, "metadata"@), table);
    let c = cleared(tables_under(m1, table))->Ok_0;
    if structured {
        with_entries(tables_under(ensured(c, "features"@), "features"@), names)
    } else {
        with_entries(graft(without_key(c, "features"@), "features"@, Map::empty()), names)
    }
}

/// Below the path of the entries, the rewritten root holds the written table.
pub proof fn lemma_entries_chain(
    root: Map<Seq<Seq<char>>, Set<Seq<char>>>,
    table: Seq<char>,
    structured: bool,
    names: Seq<Seq<char>>,
    r: Seq<Seq<char>>,
)
    requires
        edited_tables(root, table, structured, names) is Ok,
    ensures
        ({
            let t = edited_tables(root, table, structured, names)->Ok_0;
            let x = written_table(root, table, structured, names);
            let path = entries_path(table, structured);
            &&& t.dom().contains(path + r) == x.dom().contains(r)
            &&& x.dom().contains(r) ==> t[path + r] == x[r]
        }),
{
    let P = "package"@;
    let M = "metadata"@;
    let F = "features"@;
    let r1 = ensured(root, P);
    let p1 = ensured(tables_under(r1, P), M);
    let m1 = ensured(tables_under(p1, M), table);
    let f = filled(tables_under(m1, table), structured, names)->Ok_0;
    let g2 = graft(m1, table, f);
    let g1 = graft(p1, M, g2);
    let t = graft(r1, P, g1);
    let c = cleared(tables_under(m1, table))->Ok_0;
    let x = written_table(root, table, structured, names);
    let q: Seq<Seq<char>> = if structured {
        seq![F]
    } else {
        Seq::empty()
    };
    if structured {
        let e = ensured(c, F);
        assert(f == graft(e, F, x));
        lemma_graft_at(e, F, x, r);
    } else {
        assert(f == x);
        assert(q + r =~= r);
    }
    assert(f.dom().contains(q + r) == x.dom().contains(r));
    assert(x.dom().contains(r) ==> f[q + r] == x[r]);
    let path = entries_path(table, structured);
    assert(path + r =~= seq![P] + (seq![M] + (seq![table] + (q + r))));
    lemma_graft_at(r1, P, g1, seq![M] + (seq![table] + (q + r)));
    lemma_graft_at(p1, M, g2, seq![table] + (q + r));
    lemma_graft_at(m1, table, f, q + r);
}

/// The written table holds every entry, as a value rather than a table.
pub proof fn lemma_written_entries(
    root: Map<Seq<Seq<char>>, Set<Seq<char>>>,
    table: Seq<char>,
    structured: bool,
    names: Seq<Seq<char>>,
)
    requires
        edited_tables(root, table, structured, names) is Ok,
    ensures
        ({
            let x = written_table(root, table, structured, names);
            &&& x.dom().contains(Seq::empty())
            &&& forall|i: int|
                0 <= i < names.len() ==> x[Seq::empty()].contains(#[trigger] names[i]) && !x.dom().contains(
                    seq![names[i]],
                )
        }),
{
    let P = "package"@;
    let M = "metadata"@;
    let F = "features"@;
    let r1 = ensured(root, P);
    let p1 = ensured(tables_under(r1, P), M);
    let m1 = ensured(tables_under(p1, M), table);
    let c = cleared(tables_under(m1, table))->Ok_0;
    if structured {
        let e = ensured(c, F);
        assert(filled(tables_under(m1, table), structured, names) is Ok);
        assert(e.dom().contains(seq![F]));
        assert(tables_under(e, F).dom().contains(Seq::empty())) by {
            assert(seq![F] + Seq::<Seq<char>>::empty() =~= seq![F]);
        }
        lemma_with_entries(tables_under(e, F), names);
    } else {
        let b = graft(without_key(c, F), F, Map::empty());
        assert(b.dom().contains(Seq::empty()));
        lemma_with_entries(b, names);
    }
}

/// Outside `[package]`, and beside the path to the metadata table where the
/// tables on it already were, the rewritten root is the root.
pub proof fn lemma_rest_kept(
    root: Map<Seq<Seq<char>>, Set<Seq<char>>>,
    table: Seq<char>,
    structured: bool,
    names: Seq<Seq<char>>,
    p: Seq<Seq<char>>,
)
    requires
        edited_tables(root, table, structured, names) is Ok,
        p.len() > 0,
        p[0] != "package"@ || (holds_table(root, "package"@) && p.len() > 1 && p[1] != "metadata"@) || (
        holds_table(root, "package"@) && holds_table(tables_under(root, "package"@), "metadata"@) && p.len() > 2
            && p[1] == "metadata"@ && p[2] != table),
    ensures
        ({
            let t = edited_tables(root, table, structured, names)->Ok_0;
            &&& t.dom().contains(p) == root.dom().contains(p)
            &&& root.dom().contains(p) ==> t[p] == root[p]
        }),
{
    let P = "package"@;
    let M = "metadata"@;
    let r1 = ensured(root, P);
    let p1 = ensured(tables_under(r1, P), M);
    let m1 = ensured(tables_under(p1, M), table);
    let f = filled(tables_under(m1, table), structured, names)->Ok_0;
    let g2 = graft(m1, table, f);
    let g1 = graft(p1, M, g2);
    if p[0] != P {
        if !root[Seq::empty()].contains(P) {
            assert(r1 == graft(with_key(root, P), P, empty_tables()));
        }
    } else {
        assert(r1 == root);
        let d = p.drop_first();
        assert(p =~= seq![P] + d);
        lemma_graft_at(r1, P, g1, d);
        assert(d[0] == p[1]);
        let u = tables_under(r1, P);
        if p[1] != M {
            if !u[Seq::empty()].contains(M) {
                assert(p1 == graft(with_key(u, M), M, empty_tables()));
            }
        } else {
            assert(p1 == u);
            let d2 = d.drop_first();
            assert(d =~= seq![M] + d2);
            lemma_graft_at(p1, M, g2, d2);
            assert(d2[0] == p[2]);
            let w = tables_under(p1, M);
            if !w[Seq::empty()].contains(table) {
                assert(m1 == graft(with_key(w, table), table, empty_tables()));
            }
            assert(seq![P] + (seq![M] + d2) =~= p);
        }
    }
}

/// Whether a rewritten root `t` keeps what `root` holds beside the path to
/// the metadata table `table`: every table outside `[package]`, and, where
/// `[package]` and `[package.metadata]` already were tables, every other
/// table under them.
pub open spec fn kept_beside(
    root: Map<Seq<Seq<char>>, Set<Seq<char>>>,
    t: Map<Seq<Seq<char>>, Set<Seq<char>>>,
    table: Seq<char>,
) -> bool {
    &&& forall|p: Seq<Seq<char>>|
        p.len() > 0 && p[0] != "package"@ ==> (#[trigger] t.dom().contains(p) == root.dom().contains(p) && (
        root.dom().contains(p) ==> t[p] == root[p]))
    &&& holds_table(root, "package"@) ==> forall|p: Seq<Seq<char>>|
        p.len() > 1 && p[0] == "package"@ && p[1] != "metadata"@ ==> (#[trigger] t.dom().contains(p)
            == root.dom().contains(p) && (root.dom().contains(p) ==> t[p] == root[p]))
    &&& (holds_table(root, "package"@) && holds_table(tables_under(root, "package"@), "metadata"@)) ==> forall|
        p: Seq<Seq<char>>,
    |
        p.len() > 2 && p[0] == "package"@ && p[1] == "metadata"@ && p[2] != table ==> (#[trigger] t.dom().contains(
            p,
        ) == root.dom().contains(p) && (root.dom().contains(p) ==> t[p] == root[p]))
}

/// A sync's rewrite puts each entry it writes in the metadata table (flat)
/// or in its `features` table (structured), as a value rather than a table;
/// it keeps the keys of the root and what lies beside the path to the
/// metadata table.
pub proof fn law_sync_edit_places_entries(
    root: Map<Seq<Seq<char>>, Set<Seq<char>>>,
    table: Seq<char>,
    structured: bool,
    names: Seq<Seq<char>>,
)
    requires
        root.dom().contains(Seq::empty()),
        edited_tables(root, table, structured, names) is Ok,
    ensures
        edited_tables(root, table, structured, names)->Ok_0.dom().contains(entries_path(table, structured)),
        forall|i: int|
            0 <= i < names.len() ==> edited_tables(root, table, structured, names)->Ok_0[entries_path(
                table,
                structured,
            )].contains(#[trigger] names[i]) && !edited_tables(root, table, structured, names)->Ok_0.dom().contains(
                entries_path(table, structured).push(names[i]),
            ),
        root[Seq::empty()].subset_of(edited_tables(root, table, structured, names)->Ok_0[Seq::empty()]),
        kept_beside(root, edited_tables(root, table, structured, names)->Ok_0, table),
{
    let t = edited_tables(root, table, structured, names)->Ok_0;
    let path = entries_path(table, structured);
    let x = written_table(root, table, structured, names);
    lemma_written_entries(root, table, structured, names);
    lemma_entries_chain(root, table, structured, names, Seq::empty());
    assert(path + Seq::<Seq<char>>::empty() =~= path);
    assert(t.dom().contains(path));
    assert(t[path] == x[Seq::empty()]);
    assert forall|i: int| 0 <= i < names.len() implies t[path].contains(#[trigger] names[i]) && !t.dom().contains(
        path.push(names[i]),
    ) by {
        lemma_entries_chain(root, table, structured, names, seq![names[i]]);
        assert(path + seq![names[i]] =~= path.push(names[i]));
    }
    let r1 = ensured(root, "package"@);
    assert(r1.dom().contains(Seq::empty()));
    assert(t.dom().contains(Seq::empty()));
    assert(t[Seq::empty()] == r1[Seq::empty()]);
    assert(root[Seq::empty()].subset_of(r1[Seq::empty()]));
    assert forall|p: Seq<Seq<char>>| p.len() > 0 && p[0] != "package"@ implies (#[trigger] t.dom().contains(p)
        == root.dom().contains(p) && (root.dom().contains(p) ==> t[p] == root[p])) by {
        lemma_rest_kept(root, table, structured, names, p);
    }
    if holds_table(root, "package"@) {
        assert forall|p: Seq<Seq<char>>| p.len() > 1 && p[0] == "package"@ && p[1] != "metadata"@ implies (
        #[trigger] t.dom().contains(p) == root.dom().contains(p) && (root.dom().contains(p) ==> t[p] == root[p])) by {
            lemma_rest_kept(root, table, structured, names, p);
        }
    }
    if holds_table(root, "package"@) && holds_table(tables_under(root, "package"@), "metadata"@) {
        assert forall|p: Seq<Seq<char>>| p.len() > 2 && p[0] == "package"@ && p[1] == "metadata"@ && p[2] != table implies (
        #[trigger] t.dom().contains(p) == root.dom().contains(p) && (root.dom().contains(p) ==> t[p] == root[p])) by {
            lemma_rest_kept(root, table, structured, names, p);
        }
    }
    assert(kept_beside(root, t, table));
}


/// The names of the entries a sync of a manifest writes.
pub open spec fn sync_entry_names(m: crate::model::ManifestModel, remove_stale: bool) -> Seq<Seq<char>> {
    crate::sync::sync_edit_model(m, remove_stale).map_values(
        |e: (Seq<char>, Seq<(Seq<char>, crate::sync::InlineModel)>)| e.0,
    )
}

/// After a sync's rewrite, every declared feature of the manifest has an
/// entry, a value rather than a table, in the table that holds the entries.
pub proof fn law_sync_writes_every_feature(
    m: crate::model::ManifestModel,
    remove_stale: bool,
    root: Map<Seq<Seq<char>>, Set<Seq<char>>>,
    table: Seq<char>,
    structured: bool,
)
    requires
        root.dom().contains(Seq::empty()),
        edited_tables(root, table, structured, sync_entry_names(m, remove_stale)) is Ok,
    ensures
        forall|i: int|
            0 <= i < m.features.len() ==> edited_tables(root, table, structured, sync_entry_names(m, remove_stale))->Ok_0[
                entries_path(table, structured)].contains(#[trigger] m.features[i].name) && !edited_tables(
                root,
                table,
                structured,
                sync_entry_names(m, remove_stale),
            )->Ok_0.dom().contains(entries_path(table, structured).push(m.features[i].name)),
{
    let names = sync_entry_names(m, remove_stale);
    let entries = crate::sync::sync_entries_model(m, crate::sync::added_names(m), remove_stale);
    crate::sync::law_sync_settles(m, remove_stale);
    law_sync_edit_places_entries(root, table, structured, names);
    assert forall|i: int| 0 <= i < m.features.len() implies names.contains(#[trigger] m.features[i].name) by {
        assert(crate::sync::has_key(entries, m.features[i].name));
        let j = choose|j: int| 0 <= j < entries.len() && #[trigger] entries[j].0 == m.features[i].name;
        assert(names[j] == entries[j].0);
    }
    assert forall|i: int| 0 <= i < m.features.len() implies edited_tables(root, table, structured, names)->Ok_0[
        entries_path(table, structured)].contains(#[trigger] m.features[i].name) && !edited_tables(
        root,
        table,
        structured,
        names,
    )->Ok_0.dom().contains(entries_path(table, structured).push(m.features[i].name)) by {
        let j = choose|j: int| 0 <= j < names.len() && names[j] == m.features[i].name;
        assert(names[j] == m.features[i].name);
    }
}

} // verus!
