//! Planning the synchronization of a manifest's metadata table.

use vstd::prelude::*;

use crate::model::{
    empty_metadata_model, entry_views, feature_views, opt_view, FeatureManifest, FeatureMetadata,
    FeatureModel, ManifestModel, MetadataLayout, MetadataModel,
};
use crate::order::{key_insert, key_insert_exec, pairs, str_less, str_less_exec};
use crate::text::{concat3, owned, views};

verus! {

/// Options controlling how a sync rewrites metadata.
#[derive(Debug, Clone, PartialEq, Eq, Default)]
pub struct SyncOptions {
    /// Report drift without writing.
    pub check_only: bool,
    /// Remove metadata entries for undeclared features.
    pub remove_stale: bool,
    /// Layout to write, if it should change.
    pub style: Option<MetadataLayout>,
}

/// Summary of a manifest synchronization pass.
#[derive(Debug, Clone, PartialEq, Eq)]
pub struct SyncReport {
    /// Manifest that was synchronized.
    pub manifest_path: String,
    /// Package name, when known.
    pub package_name: Option<String>,
    /// Metadata table written.
    pub metadata_table: String,
    /// Layout written.
    pub style: MetadataLayout,
    /// Features that get scaffolded metadata, in name order.
    pub added_features: Vec<String>,
    /// Stale metadata entries removed, in name order.
    pub removed_features: Vec<String>,
    /// Whether the manifest changes.
    pub would_change: bool,
}

impl SyncReport {
    /// Whether the sync changes (or would change) the manifest.
    pub fn changed(&self) -> (b: bool)
        ensures
            b == self.would_change,
    {
        self.would_change
    }
}

/// Non-writing result from a manifest synchronization preview.
#[derive(Debug, Clone, PartialEq, Eq)]
pub struct SyncPreview {
    /// The report.
    pub report: SyncReport,
    /// The rewritten manifest, when it changes.
    pub rewritten: Option<String>,
}

/// `list` with `x` inserted before the first element not below it.
pub open spec fn name_insert(list: Seq<Seq<char>>, x: Seq<char>) -> Seq<Seq<char>> {
    list.insert(crate::order::set_insert_pos(list, x), x)
}

/// The names of `s` in ascending order (`slice::sort`).
pub open spec fn sorted_names(s: Seq<Seq<char>>) -> Seq<Seq<char>>
    decreases s.len(),
{
    if s.len() == 0 {
        Seq::empty()
    } else {
        name_insert(sorted_names(s.drop_last()), s.last())
    }
}

/// Names of the features without metadata, in declaration order.
pub open spec fn unmetadata_names(fs: Seq<FeatureModel>) -> Seq<Seq<char>>
    decreases fs.len(),
{
    if fs.len() == 0 {
        Seq::empty()
    } else {
        unmetadata_names(fs.drop_last()) + if fs.last().has_metadata {
            Seq::empty()
        } else {
            seq![fs.last().name]
        }
    }
}

/// The features that get scaffolded metadata.
pub open spec fn added_names(m: ManifestModel) -> Seq<Seq<char>> {
    sorted_names(unmetadata_names(m.features))
}

/// The stale entries removed.
pub open spec fn removed_names(m: ManifestModel, remove_stale: bool) -> Seq<Seq<char>> {
    if remove_stale {
        sorted_names(m.metadata_only.map_values(|e: (Seq<char>, MetadataModel)| e.0))
    } else {
        Seq::empty()
    }
}

/// Whether a sync with these options changes the manifest.
pub open spec fn sync_changes(m: ManifestModel, remove_stale: bool, style: Option<MetadataLayout>) -> bool {
    added_names(m).len() > 0 || removed_names(m, remove_stale).len() > 0 || (style matches Some(
        s,
    ) && s != m.metadata_layout)
}

/// Sorts names in ascending order.
fn sort_names(s: &Vec<String>) -> (r: Vec<String>)
    ensures
        views(r@) == sorted_names(views(s@)),
{
    let mut r: Vec<String> = Vec::new();
    let mut i: usize = 0;
    while i < s.len()
        invariant
            i <= s@.len(),
            views(r@) == sorted_names(views(s@).take(i as int)),
        decreases s@.len() - i,
    {
        assert(views(s@).take(i as int + 1).drop_last() == views(s@).take(i as int));
        assert(views(s@).take(i as int + 1).last() == s@[i as int]@);
        let x = s[i].clone();
        proof {
            crate::order::lemma_set_insert_pos(views(r@), x@);
        }
        let mut p: usize = 0;
        let ghost rv = views(r@);
        assert(rv.skip(0) == rv);
        while p < r.len() && str_less_exec(r[p].as_str(), x.as_str())
            invariant
                p <= r@.len(),
                rv == views(r@),
                crate::order::set_insert_pos(rv, x@) == crate::order::set_insert_pos(
                    rv.skip(p as int),
                    x@,
                ) + p,
            decreases r@.len() - p,
        {
            assert(rv.skip(p as int)[0] == r@[p as int]@);
            assert(rv.skip(p as int).drop_first() == rv.skip(p as int + 1));
            p = p + 1;
        }
        if p < r.len() {
            assert(rv.skip(p as int)[0] == r@[p as int]@);
        } else {
            assert(rv.skip(p as int).len() == 0);
        }
        let ghost xv = x@;
        r.insert(p, x);
        assert(views(r@) =~= rv.insert(p as int, xv));
        i = i + 1;
    }
    assert(views(s@).take(s@.len() as int) == views(s@));
    r
}

/// Whether a report describes the sync of a manifest under the options.
pub open spec fn report_describes(r: SyncReport, m: ManifestModel, options: SyncOptions) -> bool {
    &&& r.manifest_path@ == m.manifest_path
    &&& opt_view(r.package_name) == m.package_name
    &&& r.metadata_table@ == sync_table(m)
    &&& r.style == sync_style(m, options.style)
    &&& views(r.added_features@) == added_names(m)
    &&& views(r.removed_features@) == removed_names(m, options.remove_stale)
    &&& r.would_change == sync_changes(m, options.remove_stale, options.style)
}

/// The metadata table a sync writes.
pub open spec fn sync_table(m: ManifestModel) -> Seq<char> {
    match m.metadata_table {
        Some(t) => t,
        None => "feature-manifest"@,
    }
}

/// The layout a sync writes.
pub open spec fn sync_style(m: ManifestModel, style: Option<MetadataLayout>) -> MetadataLayout {
    match style {
        Some(s) => s,
        None => m.metadata_layout,
    }
}

/// Computes the report of a sync: what it adds, removes, and writes, decided
/// before any file is touched.
pub fn sync_report(m: &FeatureManifest, options: &SyncOptions) -> (r: SyncReport)
    ensures
        report_describes(r, m@, *options),
{
    let mut missing: Vec<String> = Vec::new();
    let mut i: usize = 0;
    while i < m.features.len()
        invariant
            i <= m.features@.len(),
            views(missing@) == unmetadata_names(m@.features.take(i as int)),
        decreases m.features@.len() - i,
    {
        assert(m@.features.take(i as int + 1).drop_last() == m@.features.take(i as int));
        assert(m@.features.take(i as int + 1).last() == m.features@[i as int]@);
        let ghost before = views(missing@);
        if !m.features[i].has_metadata {
            missing.push(m.features[i].name.clone());
            assert(views(missing@) =~= before.push(m.features@[i as int].name@));
        }
        assert(views(missing@) =~= unmetadata_names(m@.features.take(i as int + 1)));
        i = i + 1;
    }
    assert(m@.features.take(m.features@.len() as int) == m@.features);
    let added_features = sort_names(&missing);
    let removed_features = if options.remove_stale {
        let mut keys: Vec<String> = Vec::new();
        let mut k: usize = 0;
        while k < m.metadata_only.len()
            invariant
                k <= m.metadata_only@.len(),
                views(keys@) == m@.metadata_only.map_values(|e: (Seq<char>, MetadataModel)| e.0).take(
                    k as int,
                ),
            decreases m.metadata_only@.len() - k,
        {
            let ghost before = views(keys@);
            let key = m.metadata_only[k].0.clone();
            assert(key@ == m@.metadata_only[k as int].0);
            keys.push(key);
            assert(views(keys@) =~= before.push(m@.metadata_only[k as int].0));
            assert(views(keys@) =~= m@.metadata_only.map_values(
                |e: (Seq<char>, MetadataModel)| e.0,
            ).take(k as int + 1));
            k = k + 1;
        }
        assert(m@.metadata_only.map_values(|e: (Seq<char>, MetadataModel)| e.0).take(
            m.metadata_only@.len() as int,
        ) =~= m@.metadata_only.map_values(|e: (Seq<char>, MetadataModel)| e.0));
        sort_names(&keys)
    } else {
        let v: Vec<String> = Vec::new();
        assert(views(v@) =~= Seq::<Seq<char>>::empty());
        v
    };
    let metadata_table = match &m.metadata_table {
        Some(t) => t.clone(),
        None => owned("feature-manifest"),
    };
    let style = match options.style {
        Some(s) => s,
        None => m.metadata_layout,
    };
    let style_changes = match options.style {
        Some(s) => s != m.metadata_layout,
        None => false,
    };
    let would_change = added_features.len() > 0 || removed_features.len() > 0 || style_changes;
    SyncReport {
        manifest_path: m.manifest_path.clone(),
        package_name: crate::model::copy_opt(&m.package_name),
        metadata_table,
        style,
        added_features,
        removed_features,
        would_change,
    }
}

/// The description scaffolded for a feature without one.
pub open spec fn scaffold_description(name: Seq<char>) -> Seq<char> {
    "TODO: describe `"@ + name + "`."@
}

/// Metadata scaffolded for a feature that has none.
pub open spec fn scaffold_metadata(name: Seq<char>) -> MetadataModel {
    MetadataModel { description: Some(scaffold_description(name)), ..empty_metadata_model() }
}

/// The metadata of the features that have some, by name.
pub open spec fn kept_entries(fs: Seq<FeatureModel>) -> Seq<(Seq<char>, MetadataModel)>
    decreases fs.len(),
{
    if fs.len() == 0 {
        Seq::empty()
    } else if fs.last().has_metadata {
        key_insert(kept_entries(fs.drop_last()), fs.last().name, fs.last().metadata)
    } else {
        kept_entries(fs.drop_last())
    }
}

/// A map with further entries stored in order.
pub open spec fn with_entries(
    acc: Seq<(Seq<char>, MetadataModel)>,
    es: Seq<(Seq<char>, MetadataModel)>,
) -> Seq<(Seq<char>, MetadataModel)>
    decreases es.len(),
{
    if es.len() == 0 {
        acc
    } else {
        key_insert(with_entries(acc, es.drop_last()), es.last().0, es.last().1)
    }
}

/// A map with scaffolded metadata stored for each name.
pub open spec fn with_scaffolds(acc: Seq<(Seq<char>, MetadataModel)>, names: Seq<Seq<char>>) -> Seq<(Seq<char>, MetadataModel)>
    decreases names.len(),
{
    if names.len() == 0 {
        acc
    } else {
        key_insert(with_scaffolds(acc, names.drop_last()), names.last(), scaffold_metadata(names.last()))
    }
}

/// The metadata entries a sync writes, by name: the features' own metadata,
/// stale entries unless they are removed, and scaffolds for `added`.
pub open spec fn sync_entries_model(m: ManifestModel, added: Seq<Seq<char>>, remove_stale: bool) -> Seq<(Seq<char>, MetadataModel)> {
    with_scaffolds(
        if remove_stale {
            kept_entries(m.features)
        } else {
            with_entries(kept_entries(m.features), m.metadata_only)
        },
        added,
    )
}

/// Stores metadata under a name, in name order.
fn metadata_insert(m: &mut Vec<(String, FeatureMetadata)>, k: String, v: FeatureMetadata)
    ensures
        entry_views(final(m)@) == key_insert(entry_views(old(m)@), k@, v@),
{
    proof {
        assert forall|i: int| 0 <= i < m@.len() implies #[trigger] pairs(m@)[i].0 == entry_views(m@)[i].0 by {}
        crate::order::lemma_same_keys(pairs(m@), entry_views(m@), k@);
    }
    let ghost before = m@;
    let ghost kv = k@;
    let ghost vv = v@;
    match crate::order::key_find(m, k.as_str()) {
        Some(i) => {
            m.set(i, (k, v));
            assert(entry_views(m@) =~= entry_views(before).update(i as int, (kv, vv)));
        },
        None => {
            let p = crate::order::find_insert_pos(m, k.as_str());
            m.insert(p, (k, v));
            assert(entry_views(m@) =~= entry_views(before).insert(p as int, (kv, vv)));
        },
    }
}

/// The metadata entries a sync writes, by feature name.
pub fn sync_entries(m: &FeatureManifest, added: &Vec<String>, remove_stale: bool) -> (r: Vec<(String, FeatureMetadata)>)
    ensures
        entry_views(r@) == sync_entries_model(m@, views(added@), remove_stale),
{
    let mut r: Vec<(String, FeatureMetadata)> = Vec::new();
    assert(entry_views(r@) =~= Seq::<(Seq<char>, MetadataModel)>::empty());
    let ghost fs = m@.features;
    let mut i: usize = 0;
    while i < m.features.len()
        invariant
            i <= m.features@.len(),
            fs == m@.features,
            entry_views(r@) == kept_entries(fs.take(i as int)),
        decreases m.features@.len() - i,
    {
        assert(fs.take(i as int + 1).drop_last() == fs.take(i as int));
        assert(fs.take(i as int + 1).last() == m.features@[i as int]@);
        let f = &m.features[i];
        if f.has_metadata {
            metadata_insert(&mut r, f.name.clone(), f.metadata.duplicate());
        }
        i = i + 1;
    }
    assert(fs.take(m.features@.len() as int) == fs);
    if !remove_stale {
        let ghost base = entry_views(r@);
        let ghost es = m@.metadata_only;
        let mut k: usize = 0;
        while k < m.metadata_only.len()
            invariant
                k <= m.metadata_only@.len(),
                es == m@.metadata_only,
                entry_views(r@) == with_entries(base, es.take(k as int)),
            decreases m.metadata_only@.len() - k,
        {
            assert(es.take(k as int + 1).drop_last() == es.take(k as int));
            assert(es.take(k as int + 1).last() == (m.metadata_only@[k as int].0@, m.metadata_only@[k as int].1@));
            metadata_insert(&mut r, m.metadata_only[k].0.clone(), m.metadata_only[k].1.duplicate());
            k = k + 1;
        }
        assert(es.take(m.metadata_only@.len() as int) == es);
    }
    let ghost base = entry_views(r@);
    let ghost names = views(added@);
    let mut j: usize = 0;
    while j < added.len()
        invariant
            j <= added@.len(),
            names == views(added@),
            entry_views(r@) == with_scaffolds(base, names.take(j as int)),
        decreases added@.len() - j,
    {
        assert(names.take(j as int + 1).drop_last() == names.take(j as int));
        assert(names.take(j as int + 1).last() == added@[j as int]@);
        let mut md = FeatureMetadata::default();
        md.description = Some(concat3("TODO: describe `", added[j].as_str(), "`."));
        metadata_insert(&mut r, added[j].clone(), md);
        j = j + 1;
    }
    assert(names.take(added@.len() as int) == names);
    r
}

/// A value written into an inline metadata table.
#[derive(Debug, Clone, PartialEq, Eq)]
pub enum InlineValue {
    /// A string.
    Text(String),
    /// A boolean.
    Flag(bool),
    /// An array of strings.
    List(Vec<String>),
}

/// The characters of an [`InlineValue`].
pub enum InlineModel {
    Text(Seq<char>),
    Flag(bool),
    List(Seq<Seq<char>>),
}

impl View for InlineValue {
    type V = InlineModel;

    open spec fn view(&self) -> InlineModel {
        match self {
            InlineValue::Text(s) => InlineModel::Text(s@),
            InlineValue::Flag(b) => InlineModel::Flag(*b),
            InlineValue::List(l) => InlineModel::List(views(l@)),
        }
    }
}

/// An optional text field.
pub open spec fn text_field(key: Seq<char>, v: Option<Seq<char>>) -> Seq<(Seq<char>, InlineModel)> {
    match v {
        Some(s) => seq![(key, InlineModel::Text(s))],
        None => Seq::empty(),
    }
}

/// A flag written only when it differs from its default.
pub open spec fn flag_field(key: Seq<char>, written: bool, value: bool) -> Seq<(Seq<char>, InlineModel)> {
    if written {
        seq![(key, InlineModel::Flag(value))]
    } else {
        Seq::empty()
    }
}

/// The flags that differ from their defaults.
pub open spec fn inline_flags(md: MetadataModel) -> Seq<(Seq<char>, InlineModel)> {
    flag_field("public"@, !md.public, false) + flag_field("unstable"@, md.unstable, true)
        + flag_field("deprecated"@, md.deprecated, true) + flag_field(
        "allow_default"@,
        md.allow_default,
        true,
    )
}

/// The optional text fields that are present.
pub open spec fn inline_texts(md: MetadataModel) -> Seq<(Seq<char>, InlineModel)> {
    text_field("note"@, md.note) + text_field("category"@, md.category) + text_field(
        "since"@,
        md.since,
    ) + text_field("docs"@, md.docs) + text_field("tracking_issue"@, md.tracking_issue)
}

/// The fields of the inline table written for one feature's metadata: the
/// description (scaffolded when missing),
/// then every field that differs from its default, in a fixed order.
pub open spec fn inline_fields(md: MetadataModel, name: Seq<char>) -> Seq<(Seq<char>, InlineModel)> {
    seq![
        ("description"@, InlineModel::Text(
            match md.description {
                Some(d) => d,
                None => scaffold_description(name),
            },
        )),
    ] + inline_flags(md) + inline_texts(md) + (if md.requires.len() > 0 {
        seq![("requires"@, InlineModel::List(md.requires))]
    } else {
        Seq::empty()
    })
}

/// Views of inline fields.
pub open spec fn field_views(v: Seq<(String, InlineValue)>) -> Seq<(Seq<char>, InlineModel)> {
    v.map_values(|e: (String, InlineValue)| (e.0@, e.1@))
}

/// Pushes an optional text field.
fn push_text(fields: &mut Vec<(String, InlineValue)>, key: &str, v: &Option<String>)
    ensures
        field_views(final(fields)@) == field_views(old(fields)@) + text_field(key@, opt_view(*v)),
{
    let ghost before = field_views(fields@);
    match v {
        Some(s) => {
            fields.push((owned(key), InlineValue::Text(s.clone())));
            assert(field_views(fields@) =~= before.push((key@, InlineModel::Text(s@))));
        },
        None => {
            assert(field_views(fields@) =~= before);
        },
    }
}

/// Pushes a flag when it is written.
fn push_flag(fields: &mut Vec<(String, InlineValue)>, key: &str, written: bool, value: bool)
    ensures
        field_views(final(fields)@) == field_views(old(fields)@) + flag_field(key@, written, value),
{
    let ghost before = field_views(fields@);
    if written {
        fields.push((owned(key), InlineValue::Flag(value)));
        assert(field_views(fields@) =~= before.push((key@, InlineModel::Flag(value))));
    } else {
        assert(field_views(fields@) =~= before);
    }
}

/// Pushes the flags that differ from their defaults.
fn push_flags(fields: &mut Vec<(String, InlineValue)>, md: &FeatureMetadata)
    ensures
        field_views(final(fields)@) == field_views(old(fields)@) + inline_flags(md@),
{
    let ghost head = field_views(fields@);
    push_flag(fields, "public", !md.public, false);
    push_flag(fields, "unstable", md.unstable, true);
    push_flag(fields, "deprecated", md.deprecated, true);
    push_flag(fields, "allow_default", md.allow_default, true);
    assert(field_views(fields@) =~= head + inline_flags(md@));
}

/// Pushes the optional text fields that are present.
fn push_texts(fields: &mut Vec<(String, InlineValue)>, md: &FeatureMetadata)
    ensures
        field_views(final(fields)@) == field_views(old(fields)@) + inline_texts(md@),
{
    let ghost head = field_views(fields@);
    push_text(fields, "note", &md.note);
    push_text(fields, "category", &md.category);
    push_text(fields, "since", &md.since);
    push_text(fields, "docs", &md.docs);
    push_text(fields, "tracking_issue", &md.tracking_issue);
    assert(field_views(fields@) =~= head + inline_texts(md@));
}

/// The fields of the inline table written for one feature's metadata.
pub fn metadata_inline_fields(md: &FeatureMetadata, name: &str) -> (r: Vec<(String, InlineValue)>)
    ensures
        field_views(r@) == inline_fields(md@, name@),
{
    let description = match &md.description {
        Some(d) => d.clone(),
        None => concat3("TODO: describe `", name, "`."),
    };
    let mut fields: Vec<(String, InlineValue)> = Vec::new();
    fields.push((owned("description"), InlineValue::Text(description)));
    push_flags(&mut fields, md);
    push_texts(&mut fields, md);
    let ghost before = field_views(fields@);
    if md.requires.len() > 0 {
        fields.push((owned("requires"), InlineValue::List(crate::model::copy_strings(&md.requires))));
        assert(field_views(fields@) =~= before.push(("requires"@, InlineModel::List(md@.requires))));
    }
    assert(field_views(fields@) =~= inline_fields(md@, name@));
    fields
}

/// Whether a key of the metadata table is a feature entry, which a sync
/// rewrites (the keys a sync keeps are `groups`, `features`, `lints`, and
/// `preset`).
pub fn is_feature_entry_key(key: &str) -> (b: bool)
    ensures
        b == !crate::parse::reserved_key(key@),
{
    !(crate::text::str_eq(key, "groups") || crate::text::str_eq(key, "features")
        || crate::text::str_eq(key, "lints") || crate::text::str_eq(key, "preset"))
}

/// Whether a map has an entry under `k`.
pub open spec fn has_key(m: Seq<(Seq<char>, MetadataModel)>, k: Seq<char>) -> bool {
    exists|i: int| 0 <= i < m.len() && #[trigger] m[i].0 == k
}

/// Storing under a key keeps every other key and adds that one.
pub proof fn lemma_key_insert_keys(m: Seq<(Seq<char>, MetadataModel)>, k: Seq<char>, v: MetadataModel, x: Seq<char>)
    ensures
        has_key(key_insert(m, k, v), x) == (x == k || has_key(m, x)),
{
    crate::order::lemma_key_index(m, k);
    crate::order::lemma_insert_pos(m, k);
    let r = key_insert(m, k, v);
    match crate::order::key_index(m, k) {
        Some(i) => {
            assert(r == m.update(i, (k, v)));
            if has_key(r, x) {
                let j = choose|j: int| 0 <= j < r.len() && #[trigger] r[j].0 == x;
                if j != i {
                    assert(m[j].0 == x);
                }
            }
            if x == k {
                assert(r[i].0 == x);
            }
            if has_key(m, x) {
                let j = choose|j: int| 0 <= j < m.len() && #[trigger] m[j].0 == x;
                if j != i {
                    assert(r[j].0 == x);
                } else {
                    assert(r[i].0 == k);
                }
            }
        },
        None => {
            let p = crate::order::insert_pos(m, k);
            assert(r == m.insert(p, (k, v)));
            if has_key(r, x) {
                let j = choose|j: int| 0 <= j < r.len() && #[trigger] r[j].0 == x;
                if j < p {
                    assert(m[j].0 == x);
                } else if j > p {
                    assert(m[j - 1].0 == x);
                }
            }
            if x == k {
                assert(r[p].0 == x);
            }
            if has_key(m, x) {
                let j = choose|j: int| 0 <= j < m.len() && #[trigger] m[j].0 == x;
                if j < p {
                    assert(r[j].0 == x);
                } else {
                    assert(r[j + 1].0 == x);
                }
            }
        },
    }
}

/// The keys of the features' own metadata are those of the features that
/// have some.
pub proof fn lemma_kept_keys(fs: Seq<FeatureModel>, x: Seq<char>)
    ensures
        has_key(kept_entries(fs), x) == exists|i: int|
            0 <= i < fs.len() && #[trigger] fs[i].name == x && fs[i].has_metadata,
    decreases fs.len(),
{
    if fs.len() > 0 {
        lemma_kept_keys(fs.drop_last(), x);
        if fs.last().has_metadata {
            lemma_key_insert_keys(kept_entries(fs.drop_last()), fs.last().name, fs.last().metadata, x);
        }
        if exists|i: int| 0 <= i < fs.len() && #[trigger] fs[i].name == x && fs[i].has_metadata {
            let i = choose|i: int| 0 <= i < fs.len() && #[trigger] fs[i].name == x && fs[i].has_metadata;
            if i < fs.len() - 1 {
                assert(fs.drop_last()[i].name == x);
            }
        }
        if exists|i: int|
            0 <= i < fs.drop_last().len() && #[trigger] fs.drop_last()[i].name == x
                && fs.drop_last()[i].has_metadata {
            let i = choose|i: int|
                0 <= i < fs.drop_last().len() && #[trigger] fs.drop_last()[i].name == x
                    && fs.drop_last()[i].has_metadata;
            assert(fs[i].name == x);
        }
        if fs.last().has_metadata && fs.last().name == x {
            assert(fs[fs.len() - 1].name == x);
        }
    }
}

/// Adding entries keeps every key already there and adds theirs.
pub proof fn lemma_with_entries_keys(acc: Seq<(Seq<char>, MetadataModel)>, es: Seq<(Seq<char>, MetadataModel)>, x: Seq<char>)
    ensures
        has_key(with_entries(acc, es), x) == (has_key(acc, x) || has_key(es, x)),
    decreases es.len(),
{
    if es.len() > 0 {
        lemma_with_entries_keys(acc, es.drop_last(), x);
        lemma_key_insert_keys(with_entries(acc, es.drop_last()), es.last().0, es.last().1, x);
        if has_key(es, x) {
            let i = choose|i: int| 0 <= i < es.len() && #[trigger] es[i].0 == x;
            if i < es.len() - 1 {
                assert(es.drop_last()[i].0 == x);
            }
        }
        if has_key(es.drop_last(), x) {
            let i = choose|i: int| 0 <= i < es.drop_last().len() && #[trigger] es.drop_last()[i].0 == x;
            assert(es[i].0 == x);
        }
        if es.last().0 == x {
            assert(es[es.len() - 1].0 == x);
        }
    }
}

/// Adding scaffolds keeps every key already there and adds the names.
pub proof fn lemma_with_scaffolds_keys(acc: Seq<(Seq<char>, MetadataModel)>, names: Seq<Seq<char>>, x: Seq<char>)
    ensures
        has_key(with_scaffolds(acc, names), x) == (has_key(acc, x) || names.contains(x)),
    decreases names.len(),
{
    if names.len() > 0 {
        lemma_with_scaffolds_keys(acc, names.drop_last(), x);
        lemma_key_insert_keys(with_scaffolds(acc, names.drop_last()), names.last(), scaffold_metadata(names.last()), x);
        if names.contains(x) {
            let i = choose|i: int| 0 <= i < names.len() && names[i] == x;
            if i < names.len() - 1 {
                assert(names.drop_last()[i] == x);
            }
        }
        if names.drop_last().contains(x) {
            let i = choose|i: int| 0 <= i < names.drop_last().len() && names.drop_last()[i] == x;
            assert(names[i] == x);
        }
        if names.last() == x {
            assert(names[names.len() - 1] == x);
        }
    }
}

/// Sorting keeps the same names.
pub proof fn lemma_sorted_names_contains(s: Seq<Seq<char>>, x: Seq<char>)
    ensures
        sorted_names(s).contains(x) == s.contains(x),
    decreases s.len(),
{
    if s.len() > 0 {
        lemma_sorted_names_contains(s.drop_last(), x);
        let rest = sorted_names(s.drop_last());
        crate::order::lemma_set_insert_pos(rest, s.last());
        let p = crate::order::set_insert_pos(rest, s.last());
        let r = rest.insert(p, s.last());
        if r.contains(x) {
            let j = choose|j: int| 0 <= j < r.len() && r[j] == x;
            if j < p {
                assert(rest[j] == x);
            } else if j > p {
                assert(rest[j - 1] == x);
            }
        }
        if rest.contains(x) {
            let j = choose|j: int| 0 <= j < rest.len() && rest[j] == x;
            if j < p {
                assert(r[j] == x);
            } else {
                assert(r[j + 1] == x);
            }
        }
        if s.last() == x {
            assert(r[p] == x);
        }
        if s.contains(x) {
            let i = choose|i: int| 0 <= i < s.len() && s[i] == x;
            if i < s.len() - 1 {
                assert(s.drop_last()[i] == x);
            }
        }
        if s.drop_last().contains(x) {
            let i = choose|i: int| 0 <= i < s.drop_last().len() && s.drop_last()[i] == x;
            assert(s[i] == x);
        }
    }
}

/// The features without metadata are exactly those named in the list.
pub proof fn lemma_unmetadata_contains(fs: Seq<FeatureModel>, x: Seq<char>)
    ensures
        unmetadata_names(fs).contains(x) == exists|i: int|
            0 <= i < fs.len() && #[trigger] fs[i].name == x && !fs[i].has_metadata,
    decreases fs.len(),
{
    if fs.len() > 0 {
        lemma_unmetadata_contains(fs.drop_last(), x);
        let prev = unmetadata_names(fs.drop_last());
        let all = unmetadata_names(fs);
        if all.contains(x) {
            let j = choose|j: int| 0 <= j < all.len() && all[j] == x;
            if j < prev.len() {
                assert(prev[j] == x);
                let i = choose|i: int|
                    0 <= i < fs.drop_last().len() && #[trigger] fs.drop_last()[i].name == x
                        && !fs.drop_last()[i].has_metadata;
                assert(fs[i].name == x);
            } else {
                assert(fs[fs.len() - 1].name == x);
            }
        }
        if exists|i: int| 0 <= i < fs.len() && #[trigger] fs[i].name == x && !fs[i].has_metadata {
            let i = choose|i: int| 0 <= i < fs.len() && #[trigger] fs[i].name == x && !fs[i].has_metadata;
            if i < fs.len() - 1 {
                assert(fs.drop_last()[i].name == x);
                let j = choose|j: int| 0 <= j < prev.len() && prev[j] == x;
                assert(all[j] == x);
            } else {
                assert(all[prev.len() as int] == x);
            }
        }
    }
}

/// After a sync every declared feature has a metadata entry, so a second sync
/// adds nothing; with stale entries removed, every entry names a declared
/// feature, so a second sync removes nothing.
pub proof fn law_sync_settles(m: ManifestModel, remove_stale: bool)
    ensures
        forall|i: int|
            0 <= i < m.features.len() ==> has_key(
                sync_entries_model(m, added_names(m), remove_stale),
                #[trigger] m.features[i].name,
            ),
        remove_stale ==> forall|x: Seq<char>|
            #[trigger] has_key(sync_entries_model(m, added_names(m), remove_stale), x) ==> exists|i: int|
                0 <= i < m.features.len() && m.features[i].name == x,
{
    let base = if remove_stale {
        kept_entries(m.features)
    } else {
        with_entries(kept_entries(m.features), m.metadata_only)
    };
    assert forall|i: int| 0 <= i < m.features.len() implies has_key(
        sync_entries_model(m, added_names(m), remove_stale),
        #[trigger] m.features[i].name,
    ) by {
        let x = m.features[i].name;
        lemma_with_scaffolds_keys(base, added_names(m), x);
        lemma_sorted_names_contains(unmetadata_names(m.features), x);
        lemma_unmetadata_contains(m.features, x);
        lemma_kept_keys(m.features, x);
        if !remove_stale {
            lemma_with_entries_keys(kept_entries(m.features), m.metadata_only, x);
        }
    }
    if remove_stale {
        assert forall|x: Seq<char>|
            #[trigger] has_key(sync_entries_model(m, added_names(m), remove_stale), x) implies exists|i: int|
                0 <= i < m.features.len() && m.features[i].name == x by {
            lemma_with_scaffolds_keys(base, added_names(m), x);
            lemma_sorted_names_contains(unmetadata_names(m.features), x);
            lemma_unmetadata_contains(m.features, x);
            lemma_kept_keys(m.features, x);
        }
    }
}

/// The metadata entries a sync writes, each with the fields of its inline table.
pub open spec fn sync_edit_model(m: ManifestModel, remove_stale: bool) -> Seq<(Seq<char>, Seq<(Seq<char>, InlineModel)>)> {
    sync_entries_model(m, added_names(m), remove_stale).map_values(
        |e: (Seq<char>, MetadataModel)| (e.0, inline_fields(e.1, e.0)),
    )
}

/// Previews the sync of a manifest's text: parses it, decides the report, and,
/// when the sync changes something, rewrites the metadata table of the
/// document that `toml_edit` parses with the entries the sync writes (see
/// [`crate::metadata_edit::edit_metadata`]) and prints the document back.
pub fn preview_sync_text(contents: &str, path: &str, options: &SyncOptions) -> (r: Result<SyncPreview, crate::parse::ManifestError>)
    ensures
        match crate::toml_text::toml_document(contents@) {
            None => r matches Err(crate::parse::ManifestError::InvalidToml(_)),
            Some(doc) => match crate::parse::manifest_from_doc(doc, path@) {
                Err(e) => r matches Err(f) && f@ == e,
                Ok(m) => if !sync_changes(m, options.remove_stale, options.style) {
                    r matches Ok(p) && report_describes(p.report, m, *options) && p.rewritten is None
                } else {
                    match crate::toml_text::edit_document(contents@) {
                        None => r matches Err(crate::parse::ManifestError::SyncEditFailed(_)),
                        Some(t) => match crate::metadata_edit::edited_tables(
                            t,
                            sync_table(m),
                            sync_style(m, options.style) == MetadataLayout::Structured,
                            crate::metadata_edit::sync_entry_names(m, options.remove_stale),
                        ) {
                            Ok(_) => r matches Ok(p) && report_describes(p.report, m, *options)
                                && p.rewritten is Some,
                            Err(e) => r matches Err(crate::parse::ManifestError::SyncEditFailed(x)) && x@ == e,
                        },
                    }
                },
            },
        },
{
    let m = match crate::parse::parse_manifest_str(contents, path) {
        Ok(m) => m,
        Err(e) => {
            return Err(e);
        },
    };
    let report = sync_report(&m, options);
    if !report.would_change {
        return Ok(SyncPreview { report, rewritten: None });
    }
    let entries = sync_entries(&m, &report.added_features, options.remove_stale);
    let ghost target = sync_edit_model(m@, options.remove_stale);
    assert(views(report.added_features@) == added_names(m@));
    let mut edits: Vec<(String, Vec<(String, InlineValue)>)> = Vec::new();
    let mut i: usize = 0;
    while i < entries.len()
        invariant
            i <= entries@.len(),
            entry_views(entries@) == sync_entries_model(m@, added_names(m@), options.remove_stale),
            target == sync_edit_model(m@, options.remove_stale),
            crate::toml_text::edit_views(edits@) == target.take(i as int),
        decreases entries@.len() - i,
    {
        let ghost before = crate::toml_text::edit_views(edits@);
        let name = owned(entries[i].0.as_str());
        let fields = metadata_inline_fields(&entries[i].1, entries[i].0.as_str());
        assert(entry_views(entries@)[i as int] == (entries@[i as int].0@, entries@[i as int].1@));
        let ghost item = (name@, field_views(fields@));
        edits.push((name, fields));
        assert(crate::toml_text::edit_views(edits@) =~= before.push(item));
        assert(target.len() == entries@.len());
        assert(target[i as int] == item);
        assert(crate::toml_text::edit_views(edits@) =~= target.take(i as int + 1));
        i = i + 1;
    }
    assert(target.take(entries@.len() as int) == target);
    let (document, mut root) = match crate::toml_text::parse_document(contents) {
        Ok(parsed) => parsed,
        Err(message) => {
            return Err(crate::parse::ManifestError::SyncEditFailed(message));
        },
    };
    let structured = match report.style {
        MetadataLayout::Flat => false,
        MetadataLayout::Structured => true,
    };
    assert(crate::metadata_edit::entry_names(edits@) =~= target.map_values(
        |e: (Seq<char>, Seq<(Seq<char>, InlineModel)>)| e.0,
    ));
    match crate::metadata_edit::edit_metadata(&mut root, report.metadata_table.as_str(), structured, &edits) {
        Ok(()) => {},
        Err(message) => {
            return Err(crate::parse::ManifestError::SyncEditFailed(message));
        },
    }
    let text = crate::toml_text::print_document(document, root);
    Ok(SyncPreview { report, rewritten: Some(text) })
}

} // verus!
