//! Reading a manifest document into a [`FeatureManifest`], and planning sync.

use vstd::prelude::*;

use crate::model::{
    copy_strings, empty_metadata_model, entry_views, group_views, opt_view, DependencyInfo,
    DependencyModel, FeatureGroup, FeatureMetadata, GroupModel, LintLevel, LintPreset,
    MetadataLayout, MetadataModel,
};
use crate::order::{key_index, key_insert, key_insert_exec, lemma_same_keys, pairs};
use crate::text::{owned, str_eq, views};
use crate::toml_value::{entry, get_entry, string_list, string_list_exec, string_value, TomlValue};
use crate::validate::{level_named, preset_named};

verus! {

/// Metadata with one more field read from a detailed entry, or `None` when
/// the field is unknown or has the wrong type.
pub open spec fn metadata_field(md: MetadataModel, key: Seq<char>, v: TomlValue) -> Option<MetadataModel> {
    if key == "description"@ {
        match v {
            TomlValue::String(s) => Some(MetadataModel { description: Some(s@), ..md }),
            _ => None,
        }
    } else if key == "public"@ {
        match v {
            TomlValue::Boolean(b) => Some(MetadataModel { public: b, ..md }),
            _ => None,
        }
    } else if key == "unstable"@ {
        match v {
            TomlValue::Boolean(b) => Some(MetadataModel { unstable: b, ..md }),
            _ => None,
        }
    } else if key == "deprecated"@ {
        match v {
            TomlValue::Boolean(b) => Some(MetadataModel { deprecated: b, ..md }),
            _ => None,
        }
    } else if key == "allow_default"@ {
        match v {
            TomlValue::Boolean(b) => Some(MetadataModel { allow_default: b, ..md }),
            _ => None,
        }
    } else if key == "note"@ {
        match v {
            TomlValue::String(s) => Some(MetadataModel { note: Some(s@), ..md }),
            _ => None,
        }
    } else if key == "category"@ {
        match v {
            TomlValue::String(s) => Some(MetadataModel { category: Some(s@), ..md }),
            _ => None,
        }
    } else if key == "since"@ {
        match v {
            TomlValue::String(s) => Some(MetadataModel { since: Some(s@), ..md }),
            _ => None,
        }
    } else if key == "docs"@ {
        match v {
            TomlValue::String(s) => Some(MetadataModel { docs: Some(s@), ..md }),
            _ => None,
        }
    } else if key == "tracking_issue"@ {
        match v {
            TomlValue::String(s) => Some(MetadataModel { tracking_issue: Some(s@), ..md }),
            _ => None,
        }
    } else if key == "requires"@ {
        match string_list(v) {
            Some(l) => Some(MetadataModel { requires: l, ..md }),
            None => None,
        }
    } else {
        None
    }
}

/// Metadata read from the fields of a detailed entry, in order, starting from
/// the defaults.
pub open spec fn metadata_fields(es: Seq<(String, TomlValue)>) -> Option<MetadataModel>
    decreases es.len(),
{
    if es.len() == 0 {
        Some(empty_metadata_model())
    } else {
        match metadata_fields(es.drop_last()) {
            Some(md) => metadata_field(md, es.last().0@, es.last().1),
            None => None,
        }
    }
}

/// The metadata an entry gives: a string is the description, a table lists the
/// fields; anything else is refused.
pub open spec fn metadata_from(v: TomlValue) -> Option<MetadataModel> {
    match v {
        TomlValue::String(s) => Some(MetadataModel { description: Some(s@), ..empty_metadata_model() }),
        TomlValue::Table(es) => metadata_fields(es@),
        _ => None,
    }
}

/// The flag that the fields of a detailed entry give `key`: the last
/// boolean stored under it, or `default` when none is.
pub open spec fn field_flag(es: Seq<(String, TomlValue)>, key: Seq<char>, default: bool) -> bool
    decreases es.len(),
{
    if es.len() == 0 {
        default
    } else if es.last().0@ == key && es.last().1 is Boolean {
        es.last().1->Boolean_0
    } else {
        field_flag(es.drop_last(), key, default)
    }
}

/// The text that the fields of a detailed entry give `key`: the last string
/// stored under it, if any.
pub open spec fn field_text(es: Seq<(String, TomlValue)>, key: Seq<char>) -> Option<Seq<char>>
    decreases es.len(),
{
    if es.len() == 0 {
        None
    } else if es.last().0@ == key && es.last().1 is String {
        Some(es.last().1->String_0@)
    } else {
        field_text(es.drop_last(), key)
    }
}

/// Each field of a detailed metadata entry sets only the metadata field of
/// the same name: every flag is the last boolean given under its own key, or
/// its default (`public` true, the others false), and every text is the last
/// string given under its own key, if any.
pub proof fn law_metadata_fields_by_name(es: Seq<(String, TomlValue)>)
    ensures
        metadata_fields(es) matches Some(md) ==> {
            &&& md.public == field_flag(es, "public"@, true)
            &&& md.unstable == field_flag(es, "unstable"@, false)
            &&& md.deprecated == field_flag(es, "deprecated"@, false)
            &&& md.allow_default == field_flag(es, "allow_default"@, false)
            &&& md.description == field_text(es, "description"@)
            &&& md.note == field_text(es, "note"@)
            &&& md.category == field_text(es, "category"@)
            &&& md.since == field_text(es, "since"@)
            &&& md.docs == field_text(es, "docs"@)
            &&& md.tracking_issue == field_text(es, "tracking_issue"@)
        },
    decreases es.len(),
{
    lemma_metadata_keys();
    if es.len() > 0 {
        law_metadata_fields_by_name(es.drop_last());
    }
}

/// A metadata entry written as a string sets the description alone, every
/// flag keeping its default.
pub proof fn law_metadata_text_entry(s: String)
    ensures
        metadata_from(TomlValue::String(s)) == Some(MetadataModel { description: Some(s@), ..empty_metadata_model() }),
        metadata_from(TomlValue::String(s))->Some_0.unstable == false,
        metadata_from(TomlValue::String(s))->Some_0.deprecated == false,
        metadata_from(TomlValue::String(s))->Some_0.public == true,
{
}

/// The field names of a detailed entry are distinct.
pub proof fn lemma_metadata_keys()
    ensures
        "description"@.len() == 11,
        "public"@.len() == 6,
        "unstable"@.len() == 8 && "unstable"@[0] == 'u',
        "deprecated"@.len() == 10,
        "allow_default"@.len() == 13,
        "note"@.len() == 4 && "note"@[0] == 'n',
        "category"@.len() == 8 && "category"@[0] == 'c',
        "since"@.len() == 5,
        "docs"@.len() == 4 && "docs"@[0] == 'd',
        "tracking_issue"@.len() == 14,
        "requires"@.len() == 8 && "requires"@[0] == 'r',
{
    reveal_strlit("description");
    reveal_strlit("public");
    reveal_strlit("unstable");
    reveal_strlit("deprecated");
    reveal_strlit("allow_default");
    reveal_strlit("note");
    reveal_strlit("category");
    reveal_strlit("since");
    reveal_strlit("docs");
    reveal_strlit("tracking_issue");
    reveal_strlit("requires");
}

/// Applies one field of a detailed entry.
fn apply_metadata_field(md: &mut FeatureMetadata, key: &str, v: &TomlValue) -> (ok: bool)
    ensures
        ok == metadata_field(old(md)@, key@, *v) is Some,
        ok ==> Some(final(md)@) == metadata_field(old(md)@, key@, *v),
{
    proof {
        lemma_metadata_keys();
    }
    if str_eq(key, "requires") {
        match string_list_exec(v) {
            Some(l) => {
                md.requires = l;
                return true;
            },
            None => return false,
        }
    }
    match v {
        TomlValue::String(s) => {
            if str_eq(key, "description") {
                md.description = Some(s.clone());
            } else if str_eq(key, "note") {
                md.note = Some(s.clone());
            } else if str_eq(key, "category") {
                md.category = Some(s.clone());
            } else if str_eq(key, "since") {
                md.since = Some(s.clone());
            } else if str_eq(key, "docs") {
                md.docs = Some(s.clone());
            } else if str_eq(key, "tracking_issue") {
                md.tracking_issue = Some(s.clone());
            } else {
                return false;
            }
            true
        },
        TomlValue::Boolean(b) => {
            if str_eq(key, "public") {
                md.public = *b;
            } else if str_eq(key, "unstable") {
                md.unstable = *b;
            } else if str_eq(key, "deprecated") {
                md.deprecated = *b;
            } else if str_eq(key, "allow_default") {
                md.allow_default = *b;
            } else {
                return false;
            }
            true
        },
        _ => false,
    }
}

/// Reads the metadata of one feature entry.
pub fn decode_metadata(v: &TomlValue) -> (r: Option<FeatureMetadata>)
    ensures
        match r {
            Some(md) => metadata_from(*v) == Some(md@),
            None => metadata_from(*v) is None,
        },
{
    match v {
        TomlValue::String(s) => {
            let mut md = FeatureMetadata::default();
            md.description = Some(s.clone());
            Some(md)
        },
        TomlValue::Table(es) => {
            let mut md = FeatureMetadata::default();
            let mut i: usize = 0;
            assert(metadata_from(*v) == metadata_fields(es@));
            while i < es.len()
                invariant
                    i <= es@.len(),
                    metadata_from(*v) == metadata_fields(es@),
                    metadata_fields(es@.take(i as int)) == Some(md@),
                decreases es@.len() - i,
            {
                assert(es@.take(i as int + 1).drop_last() == es@.take(i as int));
                assert(es@.take(i as int + 1).last() == es@[i as int]);
                if !apply_metadata_field(&mut md, es[i].0.as_str(), &es[i].1) {
                    proof {
                        lemma_fields_prefix(es@, i as int + 1);
                    }
                    return None;
                }
                i = i + 1;
            }
            assert(es@.take(es@.len() as int) == es@);
            Some(md)
        },
        _ => None,
    }
}

/// Fields that fail in a prefix fail for the whole entry.
pub proof fn lemma_fields_prefix(es: Seq<(String, TomlValue)>, n: int)
    requires
        0 <= n <= es.len(),
        metadata_fields(es.take(n)) is None,
    ensures
        metadata_fields(es) is None,
    decreases es.len() - n,
{
    if n < es.len() {
        assert(es.take(n + 1).drop_last() == es.take(n));
        lemma_fields_prefix(es, n + 1);
    } else {
        assert(es.take(n) == es);
    }
}

/// A group entry read so far.
pub struct GroupDraft {
    pub name: Option<Seq<char>>,
    pub members: Option<Seq<Seq<char>>>,
    pub mutually_exclusive: bool,
    pub description: Option<Seq<char>>,
}

/// A group with one more field read, or `None` for an unknown field or a
/// wrong type.
pub open spec fn group_field(d: GroupDraft, key: Seq<char>, v: TomlValue) -> Option<GroupDraft> {
    if key == "name"@ {
        match v {
            TomlValue::String(s) => Some(GroupDraft { name: Some(s@), ..d }),
            _ => None,
        }
    } else if key == "members"@ {
        match string_list(v) {
            Some(l) => Some(GroupDraft { members: Some(l), ..d }),
            None => None,
        }
    } else if key == "mutually_exclusive"@ {
        match v {
            TomlValue::Boolean(b) => Some(GroupDraft { mutually_exclusive: b, ..d }),
            _ => None,
        }
    } else if key == "description"@ {
        match v {
            TomlValue::String(s) => Some(GroupDraft { description: Some(s@), ..d }),
            _ => None,
        }
    } else {
        None
    }
}

/// The fields of a group entry read in order.
pub open spec fn group_fields(es: Seq<(String, TomlValue)>) -> Option<GroupDraft>
    decreases es.len(),
{
    if es.len() == 0 {
        Some(GroupDraft { name: None, members: None, mutually_exclusive: false, description: None })
    } else {
        match group_fields(es.drop_last()) {
            Some(d) => group_field(d, es.last().0@, es.last().1),
            None => None,
        }
    }
}

/// The group a complete draft describes: one with a name and members.
pub open spec fn finish_group(d: Option<GroupDraft>) -> Option<GroupModel> {
    match d {
        Some(d) => match (d.name, d.members) {
            (Some(name), Some(members)) => Some(
                GroupModel {
                    name,
                    members,
                    mutually_exclusive: d.mutually_exclusive,
                    description: d.description,
                },
            ),
            _ => None,
        },
        None => None,
    }
}

/// The group an entry describes: a table with a name and members.
pub open spec fn group_from(v: TomlValue) -> Option<GroupModel> {
    match v {
        TomlValue::Table(es) => finish_group(group_fields(es@)),
        _ => None,
    }
}

/// The groups of an array of group entries.
pub open spec fn groups_in(vs: Seq<TomlValue>) -> Option<Seq<GroupModel>>
    decreases vs.len(),
{
    if vs.len() == 0 {
        Some(Seq::empty())
    } else {
        match (groups_in(vs.drop_last()), group_from(vs.last())) {
            (Some(gs), Some(g)) => Some(gs.push(g)),
            _ => None,
        }
    }
}

/// The groups of a `groups` value: an array of group tables.
pub open spec fn groups_from(v: TomlValue) -> Option<Seq<GroupModel>> {
    match v {
        TomlValue::Array(vs) => groups_in(vs@),
        _ => None,
    }
}

/// The field names of a group entry are distinct.
pub proof fn lemma_group_keys()
    ensures
        "name"@.len() == 4,
        "members"@.len() == 7,
        "mutually_exclusive"@.len() == 18,
        "description"@.len() == 11,
{
    reveal_strlit("name");
    reveal_strlit("members");
    reveal_strlit("mutually_exclusive");
    reveal_strlit("description");
}

/// Executable form of [`group_from`].
fn decode_group(v: &TomlValue) -> (r: Option<FeatureGroup>)
    ensures
        match r {
            Some(g) => group_from(*v) == Some(g@),
            None => group_from(*v) is None,
        },
{
    proof {
        lemma_group_keys();
    }
    match v {
        TomlValue::Table(es) => {
            let mut name: Option<String> = None;
            let mut members: Option<Vec<String>> = None;
            let mut mutually_exclusive = false;
            let mut description: Option<String> = None;
            let mut i: usize = 0;
            assert(group_from(*v) == finish_group(group_fields(es@)));
            while i < es.len()
                invariant
                    i <= es@.len(),
                    group_from(*v) == finish_group(group_fields(es@)),
                    group_fields(es@.take(i as int)) == Some(
                        GroupDraft {
                            name: opt_view(name),
                            members: match members {
                                Some(m) => Some(views(m@)),
                                None => None,
                            },
                            mutually_exclusive,
                            description: opt_view(description),
                        },
                    ),
                decreases es@.len() - i,
            {
                assert(es@.take(i as int + 1).drop_last() == es@.take(i as int));
                assert(es@.take(i as int + 1).last() == es@[i as int]);
                proof {
                    lemma_group_keys();
                }
                let key = es[i].0.as_str();
                let value = &es[i].1;
                let mut ok = false;
                if str_eq(key, "members") {
                    match string_list_exec(value) {
                        Some(l) => {
                            members = Some(l);
                            ok = true;
                        },
                        None => {},
                    }
                } else {
                    match value {
                        TomlValue::String(s) => {
                            if str_eq(key, "name") {
                                name = Some(s.clone());
                                ok = true;
                            } else if str_eq(key, "description") {
                                description = Some(s.clone());
                                ok = true;
                            }
                        },
                        TomlValue::Boolean(b) => {
                            if str_eq(key, "mutually_exclusive") {
                                mutually_exclusive = *b;
                                ok = true;
                            }
                        },
                        _ => {},
                    }
                }
                if !ok {
                    proof {
                        assert(group_fields(es@.take(i as int + 1)) is None);
                        lemma_group_fields_prefix(es@, i as int + 1);
                    }
                    return None;
                }
                i = i + 1;
            }
            assert(es@.take(es@.len() as int) == es@);
            match (name, members) {
                (Some(n), Some(m)) => Some(
                    FeatureGroup { name: n, members: m, mutually_exclusive, description },
                ),
                _ => None,
            }
        },
        _ => None,
    }
}

/// Group fields that fail in a prefix fail for the whole entry.
pub proof fn lemma_group_fields_prefix(es: Seq<(String, TomlValue)>, n: int)
    requires
        0 <= n <= es.len(),
        group_fields(es.take(n)) is None,
    ensures
        group_fields(es) is None,
    decreases es.len() - n,
{
    if n < es.len() {
        assert(es.take(n + 1).drop_last() == es.take(n));
        lemma_group_fields_prefix(es, n + 1);
    } else {
        assert(es.take(n) == es);
    }
}

/// Executable form of [`groups_from`].
fn decode_groups(v: &TomlValue) -> (r: Option<Vec<FeatureGroup>>)
    ensures
        match r {
            Some(gs) => groups_from(*v) == Some(group_views(gs@)),
            None => groups_from(*v) is None,
        },
{
    match v {
        TomlValue::Array(vs) => {
            let mut out: Vec<FeatureGroup> = Vec::new();
            let mut i: usize = 0;
            assert(groups_from(*v) == groups_in(vs@));
            while i < vs.len()
                invariant
                    i <= vs@.len(),
                    groups_from(*v) == groups_in(vs@),
                    groups_in(vs@.take(i as int)) == Some(group_views(out@)),
                decreases vs@.len() - i,
            {
                assert(vs@.take(i as int + 1).drop_last() == vs@.take(i as int));
                assert(vs@.take(i as int + 1).last() == vs@[i as int]);
                match decode_group(&vs[i]) {
                    Some(g) => {
                        let ghost before = group_views(out@);
                        out.push(g);
                        assert(group_views(out@) =~= before.push(g@));
                    },
                    None => {
                        proof {
                            assert(groups_in(vs@.take(i as int + 1)) is None);
                            lemma_groups_prefix(vs@, i as int + 1);
                        }
                        return None;
                    },
                }
                i = i + 1;
            }
            assert(vs@.take(vs@.len() as int) == vs@);
            Some(out)
        },
        _ => None,
    }
}

/// Groups that fail in a prefix fail for the whole array.
pub proof fn lemma_groups_prefix(vs: Seq<TomlValue>, n: int)
    requires
        0 <= n <= vs.len(),
        groups_in(vs.take(n)) is None,
    ensures
        groups_in(vs) is None,
    decreases vs.len() - n,
{
    if n < vs.len() {
        assert(vs.take(n + 1).drop_last() == vs.take(n));
        lemma_groups_prefix(vs, n + 1);
    } else {
        assert(vs.take(n) == vs);
    }
}

/// Lint levels read from the entries of a `lints` table, in key order.
pub open spec fn lints_in(es: Seq<(String, TomlValue)>) -> Option<Seq<(Seq<char>, LintLevel)>>
    decreases es.len(),
{
    if es.len() == 0 {
        Some(Seq::empty())
    } else {
        match lints_in(es.drop_last()) {
            Some(m) => match string_value(es.last().1) {
                Some(s) => match level_named(s) {
                    Some(l) => Some(key_insert(m, es.last().0@, l)),
                    None => None,
                },
                None => None,
            },
            None => None,
        }
    }
}

/// The lint levels of a `lints` value: a table of lint codes to level names.
pub open spec fn lints_from(v: TomlValue) -> Option<Seq<(Seq<char>, LintLevel)>> {
    match v {
        TomlValue::Table(es) => lints_in(es@),
        _ => None,
    }
}

/// Executable form of [`lints_from`].
fn decode_lints(v: &TomlValue) -> (r: Option<Vec<(String, LintLevel)>>)
    ensures
        match r {
            Some(m) => lints_from(*v) == Some(pairs(m@)),
            None => lints_from(*v) is None,
        },
{
    match v {
        TomlValue::Table(es) => {
            let mut out: Vec<(String, LintLevel)> = Vec::new();
            let mut i: usize = 0;
            assert(lints_from(*v) == lints_in(es@));
            assert(pairs(out@) =~= Seq::<(Seq<char>, LintLevel)>::empty());
            while i < es.len()
                invariant
                    i <= es@.len(),
                    lints_from(*v) == lints_in(es@),
                    lints_in(es@.take(i as int)) == Some(pairs(out@)),
                decreases es@.len() - i,
            {
                assert(es@.take(i as int + 1).drop_last() == es@.take(i as int));
                assert(es@.take(i as int + 1).last() == es@[i as int]);
                let level = match &es[i].1 {
                    TomlValue::String(s) => LintLevel::parse(s.as_str()),
                    _ => None,
                };
                match level {
                    Some(l) => {
                        key_insert_exec(&mut out, es[i].0.clone(), l);
                    },
                    None => {
                        proof {
                            assert(lints_in(es@.take(i as int + 1)) is None);
                            lemma_lints_prefix(es@, i as int + 1);
                        }
                        return None;
                    },
                }
                i = i + 1;
            }
            assert(es@.take(es@.len() as int) == es@);
            Some(out)
        },
        _ => None,
    }
}

/// Lints that fail in a prefix fail for the whole table.
pub proof fn lemma_lints_prefix(es: Seq<(String, TomlValue)>, n: int)
    requires
        0 <= n <= es.len(),
        lints_in(es.take(n)) is None,
    ensures
        lints_in(es) is None,
    decreases es.len() - n,
{
    if n < es.len() {
        assert(es.take(n + 1).drop_last() == es.take(n));
        lemma_lints_prefix(es, n + 1);
    } else {
        assert(es.take(n) == es);
    }
}

/// Why a manifest could not be read.
#[derive(Debug, Clone, PartialEq, Eq)]
pub enum ManifestError {
    /// The TOML document itself could not be parsed; holds the parser's message.
    InvalidToml(String),
    /// A Cargo section has the wrong shape; holds its key path.
    InvalidManifest(String),
    /// The metadata table is a scalar; holds the table name.
    MetadataNotTable(String),
    /// The nested `features` table is not a table; holds the table name.
    FeaturesNotTable(String),
    /// A metadata entry is neither a string nor a valid table; holds the
    /// feature and the table name.
    InvalidFeatureMetadata(String, String),
    /// A feature has two metadata entries; holds the feature and the table name.
    DuplicateFeatureMetadata(String, String),
    /// `groups` is not an array of valid group tables.
    InvalidGroups,
    /// `lints` is not a table of lint codes to levels.
    InvalidLints,
    /// `preset` is not a string.
    PresetNotString,
    /// `preset` names no preset; holds the value.
    UnknownPreset(String),
    /// The metadata table could not be rewritten; holds the editor's message.
    SyncEditFailed(String),
}

/// The characters of a [`ManifestError`].
pub enum ManifestFault {
    InvalidToml(Seq<char>),
    InvalidManifest(Seq<char>),
    MetadataNotTable(Seq<char>),
    FeaturesNotTable(Seq<char>),
    InvalidFeatureMetadata(Seq<char>, Seq<char>),
    DuplicateFeatureMetadata(Seq<char>, Seq<char>),
    InvalidGroups,
    InvalidLints,
    PresetNotString,
    UnknownPreset(Seq<char>),
    SyncEditFailed(Seq<char>),
}

impl View for ManifestError {
    type V = ManifestFault;

    open spec fn view(&self) -> ManifestFault {
        match self {
            ManifestError::InvalidToml(m) => ManifestFault::InvalidToml(m@),
            ManifestError::InvalidManifest(k) => ManifestFault::InvalidManifest(k@),
            ManifestError::MetadataNotTable(t) => ManifestFault::MetadataNotTable(t@),
            ManifestError::FeaturesNotTable(t) => ManifestFault::FeaturesNotTable(t@),
            ManifestError::InvalidFeatureMetadata(n, t) => ManifestFault::InvalidFeatureMetadata(n@, t@),
            ManifestError::DuplicateFeatureMetadata(n, t) => ManifestFault::DuplicateFeatureMetadata(
                n@,
                t@,
            ),
            ManifestError::InvalidGroups => ManifestFault::InvalidGroups,
            ManifestError::InvalidLints => ManifestFault::InvalidLints,
            ManifestError::PresetNotString => ManifestFault::PresetNotString,
            ManifestError::UnknownPreset(v) => ManifestFault::UnknownPreset(v@),
            ManifestError::SyncEditFailed(m) => ManifestFault::SyncEditFailed(m@),
        }
    }
}

/// The cause of a manifest error, without the manifest's path.
pub open spec fn manifest_fault_cause(e: ManifestFault) -> Seq<char> {
    match e {
        ManifestFault::InvalidToml(m) => m,
        ManifestFault::InvalidManifest(k) => "invalid `"@ + k + "` section"@,
        ManifestFault::MetadataNotTable(t) => "`[package.metadata."@ + t
            + "]` must be a TOML table, not a scalar value"@,
        ManifestFault::FeaturesNotTable(t) => "`[package.metadata."@ + t
            + ".features]` must be a TOML table"@,
        ManifestFault::InvalidFeatureMetadata(n, t) => "feature `"@ + n + "` in `[package.metadata."@
            + t + "]` must be a string or table"@,
        ManifestFault::DuplicateFeatureMetadata(n, t) => "feature `"@ + n
            + "` is defined more than once in `[package.metadata."@ + t + "]`"@,
        ManifestFault::InvalidGroups => "`groups` must be an array of tables"@,
        ManifestFault::InvalidLints => "`lints` must be a table of lint names to levels"@,
        ManifestFault::PresetNotString => "`preset` must be a string"@,
        ManifestFault::UnknownPreset(v) => "unknown lint preset `"@ + v
            + "`; expected `adopt` or `strict`"@,
        ManifestFault::SyncEditFailed(m) => m,
    }
}

/// How a manifest error reads: what failed for the manifest at `path`, then why.
pub open spec fn manifest_error_text(e: ManifestFault, path: Seq<char>) -> Seq<char> {
    match e {
        ManifestFault::InvalidToml(_) | ManifestFault::InvalidManifest(_) =>
            "failed to parse manifest TOML from `"@ + path + "`: "@ + manifest_fault_cause(e),
        ManifestFault::SyncEditFailed(_) => "failed to rewrite manifest `"@ + path + "`: "@
            + manifest_fault_cause(e),
        _ => "failed to parse feature metadata from `"@ + path + "`: "@ + manifest_fault_cause(e),
    }
}

impl ManifestError {
    /// The error as one line of text, naming the manifest.
    pub fn message(&self, path: &str) -> (r: String)
        ensures
            r@ == manifest_error_text(self@, path@),
    {
        let (head, cause) = match self {
            ManifestError::InvalidToml(m) => ("failed to parse manifest TOML from `", m.clone()),
            ManifestError::InvalidManifest(k) => (
                "failed to parse manifest TOML from `",
                crate::text::concat3("invalid `", k.as_str(), "` section"),
            ),
            ManifestError::MetadataNotTable(t) => (
                "failed to parse feature metadata from `",
                crate::text::concat3("`[package.metadata.", t.as_str(), "]` must be a TOML table, not a scalar value"),
            ),
            ManifestError::FeaturesNotTable(t) => (
                "failed to parse feature metadata from `",
                crate::text::concat3("`[package.metadata.", t.as_str(), ".features]` must be a TOML table"),
            ),
            ManifestError::InvalidFeatureMetadata(n, t) => (
                "failed to parse feature metadata from `",
                crate::text::concat5(
                    "feature `",
                    n.as_str(),
                    "` in `[package.metadata.",
                    t.as_str(),
                    "]` must be a string or table",
                ),
            ),
            ManifestError::DuplicateFeatureMetadata(n, t) => (
                "failed to parse feature metadata from `",
                crate::text::concat5(
                    "feature `",
                    n.as_str(),
                    "` is defined more than once in `[package.metadata.",
                    t.as_str(),
                    "]`",
                ),
            ),
            ManifestError::InvalidGroups => (
                "failed to parse feature metadata from `",
                owned("`groups` must be an array of tables"),
            ),
            ManifestError::InvalidLints => (
                "failed to parse feature metadata from `",
                owned("`lints` must be a table of lint names to levels"),
            ),
            ManifestError::PresetNotString => (
                "failed to parse feature metadata from `",
                owned("`preset` must be a string"),
            ),
            ManifestError::SyncEditFailed(m) => ("failed to rewrite manifest `", m.clone()),
            ManifestError::UnknownPreset(v) => (
                "failed to parse feature metadata from `",
                crate::text::concat3("unknown lint preset `", v.as_str(), "`; expected `adopt` or `strict`"),
            ),
        };
        let mut r = crate::text::concat3(head, path, "`: ");
        r.append(cause.as_str());
        r
    }
}

/// Keys of the metadata table that are not feature entries.
pub open spec fn reserved_key(k: Seq<char>) -> bool {
    k == "groups"@ || k == "features"@ || k == "lints"@ || k == "preset"@
}

/// Executable form of [`reserved_key`].
fn is_reserved_key(k: &str) -> (b: bool)
    ensures
        b == reserved_key(k@),
{
    str_eq(k, "groups") || str_eq(k, "features") || str_eq(k, "lints") || str_eq(k, "preset")
}

/// The metadata map with one more entry.
pub open spec fn metadata_step(
    m: Seq<(Seq<char>, MetadataModel)>,
    name: Seq<char>,
    v: TomlValue,
    table: Seq<char>,
) -> Result<Seq<(Seq<char>, MetadataModel)>, ManifestFault> {
    match metadata_from(v) {
        None => Err(ManifestFault::InvalidFeatureMetadata(name, table)),
        Some(md) => if key_index(m, name) is Some {
            Err(ManifestFault::DuplicateFeatureMetadata(name, table))
        } else {
            Ok(key_insert(m, name, md))
        },
    }
}

/// The metadata map after the entries `es` (reserved keys skipped when asked
/// to), stopping at the first error.
pub open spec fn metadata_entries(
    m: Seq<(Seq<char>, MetadataModel)>,
    es: Seq<(String, TomlValue)>,
    table: Seq<char>,
    skip_reserved: bool,
) -> Result<Seq<(Seq<char>, MetadataModel)>, ManifestFault>
    decreases es.len(),
{
    if es.len() == 0 {
        Ok(m)
    } else {
        match metadata_entries(m, es.drop_last(), table, skip_reserved) {
            Err(e) => Err(e),
            Ok(acc) => if skip_reserved && reserved_key(es.last().0@) {
                Ok(acc)
            } else {
                metadata_step(acc, es.last().0@, es.last().1, table)
            },
        }
    }
}

/// Executable form of [`metadata_step`].
fn insert_feature_metadata(
    m: &mut Vec<(String, FeatureMetadata)>,
    name: &String,
    v: &TomlValue,
    table: &str,
) -> (r: Result<(), ManifestError>)
    ensures
        match metadata_step(entry_views(old(m)@), name@, *v, table@) {
            Ok(next) => r is Ok && entry_views(final(m)@) == next,
            Err(e) => r matches Err(f) && f@ == e,
        },
{
    match decode_metadata(v) {
        None => Err(ManifestError::InvalidFeatureMetadata(name.clone(), owned(table))),
        Some(md) => {
            proof {
                assert forall|i: int| 0 <= i < m@.len() implies #[trigger] pairs(m@)[i].0 == entry_views(
                    m@,
                )[i].0 by {}
                lemma_same_keys(pairs(m@), entry_views(m@), name@);
            }
            match crate::order::key_find(m, name.as_str()) {
                Some(_) => Err(ManifestError::DuplicateFeatureMetadata(name.clone(), owned(table))),
                None => {
                    let p = crate::order::find_insert_pos(m, name.as_str());
                    let ghost before = m@;
                    let ghost mv = md@;
                    m.insert(p, (name.clone(), md));
                    assert(entry_views(m@) =~= entry_views(before).insert(p as int, (name@, mv)));
                    Ok(())
                },
            }
        },
    }
}

/// Executable form of [`metadata_entries`].
fn insert_metadata_entries(
    m: &mut Vec<(String, FeatureMetadata)>,
    es: &Vec<(String, TomlValue)>,
    table: &str,
    skip_reserved: bool,
) -> (r: Result<(), ManifestError>)
    ensures
        match metadata_entries(entry_views(old(m)@), es@, table@, skip_reserved) {
            Ok(next) => r is Ok && entry_views(final(m)@) == next,
            Err(e) => r matches Err(f) && f@ == e,
        },
{
    let ghost start = entry_views(m@);
    let mut i: usize = 0;
    while i < es.len()
        invariant
            i <= es@.len(),
            start == entry_views(old(m)@),
            metadata_entries(start, es@.take(i as int), table@, skip_reserved) == Ok::<
                Seq<(Seq<char>, MetadataModel)>,
                ManifestFault,
            >(entry_views(m@)),
        decreases es@.len() - i,
    {
        assert(es@.take(i as int + 1).drop_last() == es@.take(i as int));
        assert(es@.take(i as int + 1).last() == es@[i as int]);
        let ghost before = entry_views(m@);
        if !(skip_reserved && is_reserved_key(es[i].0.as_str())) {
            assert(metadata_entries(start, es@.take(i as int + 1), table@, skip_reserved)
                == metadata_step(before, es@[i as int].0@, es@[i as int].1, table@));
            match insert_feature_metadata(m, &es[i].0, &es[i].1, table) {
                Ok(()) => {},
                Err(e) => {
                    proof {
                        assert(metadata_step(before, es@[i as int].0@, es@[i as int].1, table@) is Err);
                        lemma_metadata_entries_err(start, es@, table@, skip_reserved, i as int + 1);
                        assert(start == entry_views(old(m)@));
                    }
                    return Err(e);
                },
            }
        }
        i = i + 1;
    }
    assert(es@.take(es@.len() as int) == es@);
    Ok(())
}

/// An error in a prefix of the entries is the error for all of them.
pub proof fn lemma_metadata_entries_err(
    m: Seq<(Seq<char>, MetadataModel)>,
    es: Seq<(String, TomlValue)>,
    table: Seq<char>,
    skip_reserved: bool,
    n: int,
)
    requires
        0 <= n <= es.len(),
        metadata_entries(m, es.take(n), table, skip_reserved) is Err,
    ensures
        metadata_entries(m, es, table, skip_reserved) == metadata_entries(
            m,
            es.take(n),
            table,
            skip_reserved,
        ),
    decreases es.len() - n,
{
    if n < es.len() {
        assert(es.take(n + 1).drop_last() == es.take(n));
        lemma_metadata_entries_err(m, es, table, skip_reserved, n + 1);
    } else {
        assert(es.take(n) == es);
    }
}

/// What the metadata table holds.
pub struct ExtractedModel {
    pub features: Seq<(Seq<char>, MetadataModel)>,
    pub groups: Seq<GroupModel>,
    pub table: Option<Seq<char>>,
    pub layout: MetadataLayout,
    pub lints: Seq<(Seq<char>, LintLevel)>,
    pub preset: Option<LintPreset>,
}

/// A package without a metadata table.
pub open spec fn no_metadata() -> ExtractedModel {
    ExtractedModel {
        features: Seq::empty(),
        groups: Seq::empty(),
        table: None,
        layout: MetadataLayout::Structured,
        lints: Seq::empty(),
        preset: None,
    }
}

/// Whether some key of the table is a feature entry.
pub open spec fn has_flat_entry(es: Seq<(String, TomlValue)>) -> bool {
    exists|i: int| 0 <= i < es.len() && !reserved_key(#[trigger] es[i].0@)
}

/// The layout of a metadata table: structured when it has a nested
/// `features` table or no feature entries at all, flat otherwise.
pub open spec fn layout_of(es: Seq<(String, TomlValue)>) -> MetadataLayout {
    if entry(es, "features"@) matches Some(TomlValue::Table(_)) {
        MetadataLayout::Structured
    } else if has_flat_entry(es) {
        MetadataLayout::Flat
    } else {
        MetadataLayout::Structured
    }
}

/// The metadata table's contents, given its name and entries.
pub open spec fn extracted_from_table(table: Seq<char>, es: Seq<(String, TomlValue)>) -> Result<ExtractedModel, ManifestFault> {
    let nested: Result<Seq<(Seq<char>, MetadataModel)>, ManifestFault> = match entry(es, "features"@) {
        Some(TomlValue::Table(fes)) => metadata_entries(Seq::empty(), fes@, table, false),
        Some(_) => Err(ManifestFault::FeaturesNotTable(table)),
        None => Ok(Seq::empty()),
    };
    match nested {
        Err(e) => Err(e),
        Ok(m) => match metadata_entries(m, es, table, true) {
            Err(e) => Err(e),
            Ok(features) => {
                let groups: Option<Seq<GroupModel>> = match entry(es, "groups"@) {
                    Some(g) => groups_from(g),
                    None => Some(Seq::empty()),
                };
                let lints: Option<Seq<(Seq<char>, LintLevel)>> = match entry(es, "lints"@) {
                    Some(l) => lints_from(l),
                    None => Some(Seq::empty()),
                };
                match (groups, lints) {
                    (None, _) => Err(ManifestFault::InvalidGroups),
                    (_, None) => Err(ManifestFault::InvalidLints),
                    (Some(groups), Some(lints)) => match entry(es, "preset"@) {
                        Some(TomlValue::String(p)) => match preset_named(p@) {
                            Some(preset) => Ok(
                                ExtractedModel {
                                    features,
                                    groups,
                                    table: Some(table),
                                    layout: layout_of(es),
                                    lints,
                                    preset: Some(preset),
                                },
                            ),
                            None => Err(ManifestFault::UnknownPreset(p@)),
                        },
                        Some(_) => Err(ManifestFault::PresetNotString),
                        None => Ok(
                            ExtractedModel {
                                features,
                                groups,
                                table: Some(table),
                                layout: layout_of(es),
                                lints,
                                preset: None,
                            },
                        ),
                    },
                }
            },
        },
    }
}

/// The metadata of a package: read from
/// `package.metadata.feature-manifest`, else from `package.metadata.feature-docs`.
pub open spec fn extracted(metadata: Option<Seq<(String, TomlValue)>>) -> Result<ExtractedModel, ManifestFault> {
    match metadata {
        None => Ok(no_metadata()),
        Some(md) => {
            let found: Option<(Seq<char>, TomlValue)> = match entry(md, "feature-manifest"@) {
                Some(v) => Some(("feature-manifest"@, v)),
                None => match entry(md, "feature-docs"@) {
                    Some(v) => Some(("feature-docs"@, v)),
                    None => None,
                },
            };
            match found {
                None => Ok(no_metadata()),
                Some((name, TomlValue::Table(es))) => extracted_from_table(name, es@),
                Some((name, _)) => Err(ManifestFault::MetadataNotTable(name)),
            }
        },
    }
}

/// The metadata of a package, as read.
pub struct ExtractedMetadata {
    pub features: Vec<(String, FeatureMetadata)>,
    pub groups: Vec<FeatureGroup>,
    pub table: Option<String>,
    pub layout: MetadataLayout,
    pub lints: Vec<(String, LintLevel)>,
    pub preset: Option<LintPreset>,
}

impl View for ExtractedMetadata {
    type V = ExtractedModel;

    open spec fn view(&self) -> ExtractedModel {
        ExtractedModel {
            features: entry_views(self.features@),
            groups: group_views(self.groups@),
            table: opt_view(self.table),
            layout: self.layout,
            lints: pairs(self.lints@),
            preset: self.preset,
        }
    }
}

/// Executable form of [`no_metadata`].
pub fn empty_metadata() -> (r: ExtractedMetadata)
    ensures
        r@ == no_metadata(),
{
    let r = ExtractedMetadata {
        features: Vec::new(),
        groups: Vec::new(),
        table: None,
        layout: MetadataLayout::Structured,
        lints: Vec::new(),
        preset: None,
    };
    assert(r@.features =~= Seq::<(Seq<char>, MetadataModel)>::empty());
    assert(r@.groups =~= Seq::<GroupModel>::empty());
    assert(r@.lints =~= Seq::<(Seq<char>, LintLevel)>::empty());
    r
}

/// Executable form of [`layout_of`].
fn metadata_layout_of(es: &Vec<(String, TomlValue)>) -> (r: MetadataLayout)
    ensures
        r == layout_of(es@),
{
    match get_entry(es, "features") {
        Some(TomlValue::Table(_)) => {
            return MetadataLayout::Structured;
        },
        _ => {},
    }
    let mut i: usize = 0;
    while i < es.len()
        invariant
            i <= es@.len(),
            !(entry(es@, "features"@) matches Some(TomlValue::Table(_))),
            forall|j: int| 0 <= j < i ==> reserved_key(#[trigger] es@[j].0@),
        decreases es@.len() - i,
    {
        if !is_reserved_key(es[i].0.as_str()) {
            assert(!reserved_key(es@[i as int].0@));
            return MetadataLayout::Flat;
        }
        i = i + 1;
    }
    MetadataLayout::Structured
}

/// Executable form of [`extracted_from_table`].
fn extract_from_table(table: &str, es: &Vec<(String, TomlValue)>) -> (r: Result<ExtractedMetadata, ManifestError>)
    ensures
        match extracted_from_table(table@, es@) {
            Ok(x) => r matches Ok(y) && y@ == x,
            Err(e) => r matches Err(f) && f@ == e,
        },
{
    let mut features: Vec<(String, FeatureMetadata)> = Vec::new();
    assert(entry_views(features@) =~= Seq::<(Seq<char>, MetadataModel)>::empty());
    match get_entry(es, "features") {
        Some(TomlValue::Table(fes)) => {
            match insert_metadata_entries(&mut features, fes, table, false) {
                Ok(()) => {},
                Err(e) => {
                    return Err(e);
                },
            }
        },
        Some(_) => {
            return Err(ManifestError::FeaturesNotTable(owned(table)));
        },
        None => {},
    }
    match insert_metadata_entries(&mut features, es, table, true) {
        Ok(()) => {},
        Err(e) => {
            return Err(e);
        },
    }
    let groups = match get_entry(es, "groups") {
        Some(g) => match decode_groups(g) {
            Some(gs) => gs,
            None => {
                return Err(ManifestError::InvalidGroups);
            },
        },
        None => {
            let gs: Vec<FeatureGroup> = Vec::new();
            assert(group_views(gs@) =~= Seq::<GroupModel>::empty());
            gs
        },
    };
    let lints = match get_entry(es, "lints") {
        Some(l) => match decode_lints(l) {
            Some(m) => m,
            None => {
                return Err(ManifestError::InvalidLints);
            },
        },
        None => {
            let m: Vec<(String, LintLevel)> = Vec::new();
            assert(pairs(m@) =~= Seq::<(Seq<char>, LintLevel)>::empty());
            m
        },
    };
    let preset = match get_entry(es, "preset") {
        Some(TomlValue::String(p)) => match LintPreset::parse(p.as_str()) {
            Some(preset) => Some(preset),
            None => {
                return Err(ManifestError::UnknownPreset(p.clone()));
            },
        },
        Some(_) => {
            return Err(ManifestError::PresetNotString);
        },
        None => None,
    };
    Ok(
        ExtractedMetadata {
            features,
            groups,
            table: Some(owned(table)),
            layout: metadata_layout_of(es),
            lints,
            preset,
        },
    )
}

/// Reads the feature metadata of a package.
pub fn extract_metadata(metadata: Option<&Vec<(String, TomlValue)>>) -> (r: Result<ExtractedMetadata, ManifestError>)
    ensures
        match extracted(
            match metadata {
                Some(md) => Some(md@),
                None => None,
            },
        ) {
            Ok(x) => r matches Ok(y) && y@ == x,
            Err(e) => r matches Err(f) && f@ == e,
        },
{
    let md = match metadata {
        None => {
            return Ok(empty_metadata());
        },
        Some(md) => md,
    };
    let (name, value): (&str, &TomlValue) = match get_entry(md, "feature-manifest") {
        Some(v) => ("feature-manifest", v),
        None => match get_entry(md, "feature-docs") {
            Some(v) => ("feature-docs", v),
            None => {
                return Ok(empty_metadata());
            },
        },
    };
    match value {
        TomlValue::Table(es) => extract_from_table(name, es),
        _ => Err(ManifestError::MetadataNotTable(owned(name))),
    }
}

/// A dependency entry read so far.
pub struct DependencyDraft {
    pub package: Option<Seq<char>>,
    pub workspace: bool,
    pub optional: Option<bool>,
}

/// A detailed dependency with one more field read: `package`, `workspace`, and
/// `optional` are checked for their types, other fields are ignored.
pub open spec fn dependency_field(d: DependencyDraft, key: Seq<char>, v: TomlValue) -> Option<DependencyDraft> {
    if key == "package"@ {
        match v {
            TomlValue::String(s) => Some(DependencyDraft { package: Some(s@), ..d }),
            _ => None,
        }
    } else if key == "workspace"@ {
        match v {
            TomlValue::Boolean(b) => Some(DependencyDraft { workspace: b, ..d }),
            _ => None,
        }
    } else if key == "optional"@ {
        match v {
            TomlValue::Boolean(b) => Some(DependencyDraft { optional: Some(b), ..d }),
            _ => None,
        }
    } else {
        Some(d)
    }
}

/// The fields of a detailed dependency read in order.
pub open spec fn dependency_fields(es: Seq<(String, TomlValue)>) -> Option<DependencyDraft>
    decreases es.len(),
{
    if es.len() == 0 {
        Some(DependencyDraft { package: None, workspace: false, optional: None })
    } else {
        match dependency_fields(es.drop_last()) {
            Some(d) => dependency_field(d, es.last().0@, es.last().1),
            None => None,
        }
    }
}

/// What a dependency entry declares: a
/// version string is a required dependency of the same name; a table may
/// rename the package and mark it optional (a workspace dependency is
/// optional unless it says otherwise). Other values are refused.
pub open spec fn dependency_from(key: Seq<char>, v: TomlValue) -> Option<DependencyModel> {
    match v {
        TomlValue::String(_) => Some(DependencyModel { key, package: key, optional: false }),
        TomlValue::Table(es) => match dependency_fields(es@) {
            Some(d) => Some(
                DependencyModel {
                    key,
                    package: match d.package {
                        Some(p) => p,
                        None => key,
                    },
                    optional: match d.optional {
                        Some(o) => o,
                        None => d.workspace,
                    },
                },
            ),
            None => None,
        },
        _ => None,
    }
}

/// Position of the first dependency whose key is not below `key`.
pub open spec fn dependency_insert_pos(ds: Seq<DependencyModel>, key: Seq<char>) -> int
    decreases ds.len(),
{
    if ds.len() == 0 {
        0
    } else if crate::order::str_less(ds[0].key, key) {
        dependency_insert_pos(ds.drop_first(), key) + 1
    } else {
        0
    }
}

/// The dependency map with `d` stored under its key.
pub open spec fn dependency_insert(ds: Seq<DependencyModel>, d: DependencyModel) -> Seq<DependencyModel> {
    match crate::validate::dependency_index(ds, d.key) {
        Some(i) => ds.update(i, d),
        None => ds.insert(dependency_insert_pos(ds, d.key), d),
    }
}

/// The dependency map after the entries of a dependency table (entries that
/// are not valid dependencies are refused when the manifest is read).
pub open spec fn dependencies_in(ds: Seq<DependencyModel>, es: Seq<(String, TomlValue)>) -> Seq<DependencyModel>
    decreases es.len(),
{
    if es.len() == 0 {
        ds
    } else {
        match dependency_from(es.last().0@, es.last().1) {
            Some(d) => dependency_insert(dependencies_in(ds, es.drop_last()), d),
            None => dependencies_in(ds, es.drop_last()),
        }
    }
}

/// Whether every entry of a dependency table is a valid dependency.
pub open spec fn dependencies_valid(es: Seq<(String, TomlValue)>) -> bool {
    forall|i: int| 0 <= i < es.len() ==> (#[trigger] dependency_from(es[i].0@, es[i].1)) is Some
}

/// The dependencies of the targets' tables, in order, added to `ds`.
pub open spec fn target_dependencies(ds: Seq<DependencyModel>, ts: Seq<(String, TomlValue)>) -> Seq<DependencyModel>
    decreases ts.len(),
{
    if ts.len() == 0 {
        ds
    } else {
        let before = target_dependencies(ds, ts.drop_last());
        match ts.last().1 {
            TomlValue::Table(tes) => match entry(tes@, "dependencies"@) {
                Some(TomlValue::Table(des)) => dependencies_in(before, des@),
                _ => before,
            },
            _ => before,
        }
    }
}

/// Whether a target table is well formed: a table whose `dependencies`, if
/// any, is a table of valid dependencies.
pub open spec fn target_valid(v: TomlValue) -> bool {
    match v {
        TomlValue::Table(tes) => match entry(tes@, "dependencies"@) {
            Some(TomlValue::Table(des)) => dependencies_valid(des@),
            Some(_) => false,
            None => true,
        },
        _ => false,
    }
}

/// Whether the `package` table is well formed: a string `name` and a table
/// `metadata`, where present.
pub open spec fn package_valid(v: TomlValue) -> bool {
    match v {
        TomlValue::Table(es) => (match entry(es@, "name"@) {
            Some(TomlValue::String(_)) => true,
            Some(_) => false,
            None => true,
        }) && (match entry(es@, "metadata"@) {
            Some(TomlValue::Table(_)) => true,
            Some(_) => false,
            None => true,
        }),
        _ => false,
    }
}

/// Whether every `[features]` entry is an array of strings.
pub open spec fn features_valid(es: Seq<(String, TomlValue)>) -> bool {
    forall|i: int| 0 <= i < es.len() ==> (#[trigger] string_list(es[i].1)) is Some
}

/// Whether one top-level section has the shape Cargo gives it; other keys are
/// not read.
pub open spec fn section_valid(key: Seq<char>, v: TomlValue) -> bool {
    if key == "package"@ {
        package_valid(v)
    } else if key == "features"@ {
        match v {
            TomlValue::Table(es) => features_valid(es@),
            _ => false,
        }
    } else if key == "dependencies"@ {
        match v {
            TomlValue::Table(es) => dependencies_valid(es@),
            _ => false,
        }
    } else if key == "target"@ {
        match v {
            TomlValue::Table(ts) => forall|i: int| 0 <= i < ts@.len() ==> target_valid(#[trigger] ts@[i].1),
            _ => false,
        }
    } else {
        true
    }
}

/// The first top-level section, in document order, that is not well formed.
pub open spec fn first_invalid_section(doc: Seq<(String, TomlValue)>) -> Option<Seq<char>>
    decreases doc.len(),
{
    if doc.len() == 0 {
        None
    } else {
        match first_invalid_section(doc.drop_last()) {
            Some(k) => Some(k),
            None => if section_valid(doc.last().0@, doc.last().1) {
                None
            } else {
                Some(doc.last().0@)
            },
        }
    }
}

/// The `[features]` table as a map from feature names to their entries.
pub open spec fn feature_lists(es: Seq<(String, TomlValue)>) -> Seq<(Seq<char>, Seq<Seq<char>>)>
    decreases es.len(),
{
    if es.len() == 0 {
        Seq::empty()
    } else {
        match string_list(es.last().1) {
            Some(l) => key_insert(feature_lists(es.drop_last()), es.last().0@, l),
            None => feature_lists(es.drop_last()),
        }
    }
}

/// The entries of a table value, or none.
pub open spec fn table_entries(v: Option<TomlValue>) -> Seq<(String, TomlValue)> {
    match v {
        Some(TomlValue::Table(es)) => es@,
        _ => Seq::empty(),
    }
}

/// The local feature names among references, in order.
pub open spec fn local_names(rs: Seq<crate::model::RefModel>) -> Seq<Seq<char>>
    decreases rs.len(),
{
    if rs.len() == 0 {
        Seq::empty()
    } else {
        local_names(rs.drop_last()) + match crate::model::local_name(rs.last()) {
            Some(n) => seq![n],
            None => Seq::empty(),
        }
    }
}

/// The declared features, in name order: every `[features]` entry but
/// `default`, with its metadata if any, its parsed references, and whether
/// `default` enables it.
pub open spec fn declared_features(
    lists: Seq<(Seq<char>, Seq<Seq<char>>)>,
    md: Seq<(Seq<char>, MetadataModel)>,
    defaults: Seq<Seq<char>>,
) -> Seq<crate::model::FeatureModel>
    decreases lists.len(),
{
    if lists.len() == 0 {
        Seq::empty()
    } else {
        let (name, entries) = lists.last();
        declared_features(lists.drop_last(), md, defaults) + if name == "default"@ {
            Seq::empty()
        } else {
            seq![
                crate::model::FeatureModel {
                    name,
                    metadata: match crate::order::key_value(md, name) {
                        Some(m) => m,
                        None => empty_metadata_model(),
                    },
                    has_metadata: key_index(md, name) is Some,
                    enables: entries.map_values(|e: Seq<char>| crate::model::parse_ref(e)),
                    default_enabled: defaults.contains(name),
                },
            ]
        }
    }
}

/// Metadata entries that name no declared feature, in name order.
pub open spec fn undeclared_metadata(
    md: Seq<(Seq<char>, MetadataModel)>,
    lists: Seq<(Seq<char>, Seq<Seq<char>>)>,
) -> Seq<(Seq<char>, MetadataModel)>
    decreases md.len(),
{
    if md.len() == 0 {
        Seq::empty()
    } else {
        undeclared_metadata(md.drop_last(), lists) + if key_index(lists, md.last().0) is Some
            && md.last().0 != "default"@ {
            Seq::empty()
        } else {
            seq![md.last()]
        }
    }
}

/// The normalized manifest a parsed TOML document describes.
pub open spec fn manifest_from_doc(doc: Seq<(String, TomlValue)>, path: Seq<char>) -> Result<
    crate::model::ManifestModel,
    ManifestFault,
> {
    match first_invalid_section(doc) {
        Some(k) => Err(ManifestFault::InvalidManifest(k)),
        None => {
            let package = table_entries(entry(doc, "package"@));
            let package_name = match entry(package, "name"@) {
                Some(TomlValue::String(s)) => Some(s@),
                _ => None,
            };
            let metadata = match entry(package, "metadata"@) {
                Some(TomlValue::Table(m)) => Some(m@),
                _ => None,
            };
            let lists = feature_lists(table_entries(entry(doc, "features"@)));
            let default_members = match crate::order::key_value(lists, "default"@) {
                Some(l) => l.map_values(|e: Seq<char>| crate::model::parse_ref(e)),
                None => Seq::empty(),
            };
            let default_features = crate::order::sorted_set(local_names(default_members));
            let dependencies = target_dependencies(
                dependencies_in(Seq::empty(), table_entries(entry(doc, "dependencies"@))),
                table_entries(entry(doc, "target"@)),
            );
            match extracted(metadata) {
                Err(e) => Err(e),
                Ok(x) => Ok(
                    crate::model::ManifestModel {
                        manifest_path: path,
                        package_name,
                        metadata_table: x.table,
                        metadata_layout: x.layout,
                        features: declared_features(lists, x.features, default_features),
                        metadata_only: undeclared_metadata(x.features, lists),
                        default_members,
                        default_features,
                        groups: x.groups,
                        dependencies,
                        lint_overrides: x.lints,
                        lint_preset: x.preset,
                    },
                ),
            }
        },
    }
}

/// The field names of a detailed dependency are distinct.
pub proof fn lemma_dependency_keys()
    ensures
        "package"@.len() == 7 && "package"@[0] == 'p',
        "workspace"@.len() == 9,
        "optional"@.len() == 8 && "optional"@[0] == 'o',
{
    reveal_strlit("package");
    reveal_strlit("workspace");
    reveal_strlit("optional");
}

/// Executable form of [`dependency_from`].
fn dependency_info(key: &String, v: &TomlValue) -> (r: Option<DependencyInfo>)
    ensures
        match r {
            Some(d) => dependency_from(key@, *v) == Some(d@),
            None => dependency_from(key@, *v) is None,
        },
{
    match v {
        TomlValue::String(_) => Some(DependencyInfo { key: key.clone(), package: key.clone(), optional: false }),
        TomlValue::Table(es) => {
            let mut package: Option<String> = None;
            let mut workspace = false;
            let mut optional: Option<bool> = None;
            let mut i: usize = 0;
            assert(dependency_from(key@, *v) == match dependency_fields(es@) {
                Some(d) => Some(
                    DependencyModel {
                        key: key@,
                        package: match d.package {
                            Some(p) => p,
                            None => key@,
                        },
                        optional: match d.optional {
                            Some(o) => o,
                            None => d.workspace,
                        },
                    },
                ),
                None => None,
            });
            while i < es.len()
                invariant
                    i <= es@.len(),
                    dependency_fields(es@.take(i as int)) == Some(
                        DependencyDraft { package: opt_view(package), workspace, optional },
                    ),
                    dependency_from(key@, *v) == match dependency_fields(es@) {
                        Some(d) => Some(
                            DependencyModel {
                                key: key@,
                                package: match d.package {
                                    Some(p) => p,
                                    None => key@,
                                },
                                optional: match d.optional {
                                    Some(o) => o,
                                    None => d.workspace,
                                },
                            },
                        ),
                        None => None,
                    },
                decreases es@.len() - i,
            {
                proof {
                    lemma_dependency_keys();
                }
                assert(es@.take(i as int + 1).drop_last() == es@.take(i as int));
                assert(es@.take(i as int + 1).last() == es@[i as int]);
                let k = es[i].0.as_str();
                let mut ok = true;
                if str_eq(k, "package") {
                    match &es[i].1 {
                        TomlValue::String(p) => {
                            package = Some(p.clone());
                        },
                        _ => {
                            ok = false;
                        },
                    }
                } else if str_eq(k, "workspace") {
                    match &es[i].1 {
                        TomlValue::Boolean(b) => {
                            workspace = *b;
                        },
                        _ => {
                            ok = false;
                        },
                    }
                } else if str_eq(k, "optional") {
                    match &es[i].1 {
                        TomlValue::Boolean(b) => {
                            optional = Some(*b);
                        },
                        _ => {
                            ok = false;
                        },
                    }
                }
                if !ok {
                    proof {
                        assert(dependency_fields(es@.take(i as int + 1)) is None);
                        lemma_dependency_fields_prefix(es@, i as int + 1);
                    }
                    return None;
                }
                i = i + 1;
            }
            assert(es@.take(es@.len() as int) == es@);
            let package = match package {
                Some(p) => p,
                None => key.clone(),
            };
            let optional = match optional {
                Some(o) => o,
                None => workspace,
            };
            Some(DependencyInfo { key: key.clone(), package, optional })
        },
        _ => None,
    }
}

/// Dependency fields that fail in a prefix fail for the whole entry.
pub proof fn lemma_dependency_fields_prefix(es: Seq<(String, TomlValue)>, n: int)
    requires
        0 <= n <= es.len(),
        dependency_fields(es.take(n)) is None,
    ensures
        dependency_fields(es) is None,
    decreases es.len() - n,
{
    if n < es.len() {
        assert(es.take(n + 1).drop_last() == es.take(n));
        lemma_dependency_fields_prefix(es, n + 1);
    } else {
        assert(es.take(n) == es);
    }
}

/// The insertion position is within bounds.
pub proof fn lemma_dependency_insert_pos(ds: Seq<DependencyModel>, key: Seq<char>)
    ensures
        0 <= dependency_insert_pos(ds, key) <= ds.len(),
    decreases ds.len(),
{
    if ds.len() > 0 {
        lemma_dependency_insert_pos(ds.drop_first(), key);
    }
}

/// Executable form of [`dependency_insert`].
pub fn insert_dependency(ds: &mut Vec<DependencyInfo>, d: DependencyInfo)
    ensures
        crate::model::dependency_views(final(ds)@) == dependency_insert(
            crate::model::dependency_views(old(ds)@),
            d@,
        ),
{
    let ghost before = ds@;
    let ghost dv = d@;
    match crate::validate::dependency_position(ds, d.key.as_str()) {
        Some(i) => {
            ds.set(i, d);
            assert(crate::model::dependency_views(ds@) =~= crate::model::dependency_views(before).update(
                i as int,
                dv,
            ));
        },
        None => {
            let ghost dsv = crate::model::dependency_views(ds@);
            proof {
                lemma_dependency_insert_pos(dsv, dv.key);
            }
            let mut p: usize = 0;
            assert(dsv.skip(0) == dsv);
            while p < ds.len() && crate::order::str_less_exec(ds[p].key.as_str(), d.key.as_str())
                invariant
                    p <= ds@.len(),
                    ds@ == before,
                    dsv == crate::model::dependency_views(ds@),
                    dependency_insert_pos(dsv, dv.key) == dependency_insert_pos(dsv.skip(p as int), dv.key)
                        + p,
                    dv == d@,
                decreases ds@.len() - p,
            {
                assert(dsv.skip(p as int)[0] == ds@[p as int]@);
                assert(dsv.skip(p as int).drop_first() == dsv.skip(p as int + 1));
                p = p + 1;
            }
            if p < ds.len() {
                assert(dsv.skip(p as int)[0] == ds@[p as int]@);
            } else {
                assert(dsv.skip(p as int).len() == 0);
            }
            ds.insert(p, d);
            assert(crate::model::dependency_views(ds@) =~= dsv.insert(p as int, dv));
        },
    }
}

/// Executable form of [`dependencies_in`].
fn add_dependencies(ds: &mut Vec<DependencyInfo>, es: &Vec<(String, TomlValue)>)
    ensures
        crate::model::dependency_views(final(ds)@) == dependencies_in(
            crate::model::dependency_views(old(ds)@),
            es@,
        ),
{
    let ghost start = crate::model::dependency_views(ds@);
    let mut i: usize = 0;
    while i < es.len()
        invariant
            i <= es@.len(),
            start == crate::model::dependency_views(old(ds)@),
            crate::model::dependency_views(ds@) == dependencies_in(start, es@.take(i as int)),
        decreases es@.len() - i,
    {
        assert(es@.take(i as int + 1).drop_last() == es@.take(i as int));
        assert(es@.take(i as int + 1).last() == es@[i as int]);
        match dependency_info(&es[i].0, &es[i].1) {
            Some(d) => insert_dependency(ds, d),
            None => {},
        }
        i = i + 1;
    }
    assert(es@.take(es@.len() as int) == es@);
}

/// Executable form of [`dependencies_valid`].
fn dependencies_ok(es: &Vec<(String, TomlValue)>) -> (b: bool)
    ensures
        b == dependencies_valid(es@),
{
    let mut i: usize = 0;
    while i < es.len()
        invariant
            i <= es@.len(),
            forall|j: int| 0 <= j < i ==> (#[trigger] dependency_from(es@[j].0@, es@[j].1)) is Some,
        decreases es@.len() - i,
    {
        if dependency_info(&es[i].0, &es[i].1).is_none() {
            return false;
        }
        i = i + 1;
    }
    true
}

/// Executable form of [`target_valid`].
fn target_ok(v: &TomlValue) -> (b: bool)
    ensures
        b == target_valid(*v),
{
    match v {
        TomlValue::Table(tes) => match get_entry(tes, "dependencies") {
            Some(TomlValue::Table(des)) => dependencies_ok(des),
            Some(_) => false,
            None => true,
        },
        _ => false,
    }
}

/// Executable form of [`target_dependencies`].
fn add_target_dependencies(ds: &mut Vec<DependencyInfo>, ts: &Vec<(String, TomlValue)>)
    ensures
        crate::model::dependency_views(final(ds)@) == target_dependencies(
            crate::model::dependency_views(old(ds)@),
            ts@,
        ),
{
    let ghost start = crate::model::dependency_views(ds@);
    let mut i: usize = 0;
    while i < ts.len()
        invariant
            i <= ts@.len(),
            start == crate::model::dependency_views(old(ds)@),
            crate::model::dependency_views(ds@) == target_dependencies(start, ts@.take(i as int)),
        decreases ts@.len() - i,
    {
        assert(ts@.take(i as int + 1).drop_last() == ts@.take(i as int));
        assert(ts@.take(i as int + 1).last() == ts@[i as int]);
        match &ts[i].1 {
            TomlValue::Table(tes) => match get_entry(tes, "dependencies") {
                Some(TomlValue::Table(des)) => add_dependencies(ds, des),
                _ => {},
            },
            _ => {},
        }
        i = i + 1;
    }
    assert(ts@.take(ts@.len() as int) == ts@);
}

/// Executable form of [`package_valid`].
fn package_ok(v: &TomlValue) -> (b: bool)
    ensures
        b == package_valid(*v),
{
    match v {
        TomlValue::Table(es) => {
            let name_ok = match get_entry(es, "name") {
                Some(TomlValue::String(_)) => true,
                Some(_) => false,
                None => true,
            };
            let metadata_ok = match get_entry(es, "metadata") {
                Some(TomlValue::Table(_)) => true,
                Some(_) => false,
                None => true,
            };
            name_ok && metadata_ok
        },
        _ => false,
    }
}

/// Executable form of [`features_valid`].
fn features_ok(es: &Vec<(String, TomlValue)>) -> (b: bool)
    ensures
        b == features_valid(es@),
{
    let mut i: usize = 0;
    while i < es.len()
        invariant
            i <= es@.len(),
            forall|j: int| 0 <= j < i ==> (#[trigger] string_list(es@[j].1)) is Some,
        decreases es@.len() - i,
    {
        if string_list_exec(&es[i].1).is_none() {
            return false;
        }
        i = i + 1;
    }
    true
}

/// The top-level section names are distinct.
pub proof fn lemma_section_keys()
    ensures
        "package"@.len() == 7,
        "features"@.len() == 8,
        "dependencies"@.len() == 12,
        "target"@.len() == 6,
{
    reveal_strlit("package");
    reveal_strlit("features");
    reveal_strlit("dependencies");
    reveal_strlit("target");
}

/// Whether every target table is well formed.
fn targets_ok(ts: &Vec<(String, TomlValue)>) -> (b: bool)
    ensures
        b == forall|i: int| 0 <= i < ts@.len() ==> target_valid(#[trigger] ts@[i].1),
{
    let mut i: usize = 0;
    while i < ts.len()
        invariant
            i <= ts@.len(),
            forall|j: int| 0 <= j < i ==> target_valid(#[trigger] ts@[j].1),
        decreases ts@.len() - i,
    {
        if !target_ok(&ts[i].1) {
            return false;
        }
        i = i + 1;
    }
    true
}

/// Executable form of [`section_valid`].
fn section_ok(key: &str, v: &TomlValue) -> (b: bool)
    ensures
        b == section_valid(key@, *v),
{
    proof {
        lemma_section_keys();
    }
    if str_eq(key, "package") {
        package_ok(v)
    } else if str_eq(key, "features") {
        match v {
            TomlValue::Table(es) => features_ok(es),
            _ => false,
        }
    } else if str_eq(key, "dependencies") {
        match v {
            TomlValue::Table(es) => dependencies_ok(es),
            _ => false,
        }
    } else if str_eq(key, "target") {
        match v {
            TomlValue::Table(ts) => targets_ok(ts),
            _ => false,
        }
    } else {
        true
    }
}

/// Executable form of [`first_invalid_section`].
fn find_invalid_section(doc: &Vec<(String, TomlValue)>) -> (r: Option<String>)
    ensures
        match r {
            Some(k) => first_invalid_section(doc@) == Some(k@),
            None => first_invalid_section(doc@) is None,
        },
{
    let mut i: usize = 0;
    while i < doc.len()
        invariant
            i <= doc@.len(),
            first_invalid_section(doc@.take(i as int)) is None,
        decreases doc@.len() - i,
    {
        assert(doc@.take(i as int + 1).drop_last() == doc@.take(i as int));
        assert(doc@.take(i as int + 1).last() == doc@[i as int]);
        if !section_ok(doc[i].0.as_str(), &doc[i].1) {
            proof {
                lemma_invalid_prefix(doc@, i as int + 1);
            }
            return Some(doc[i].0.clone());
        }
        i = i + 1;
    }
    assert(doc@.take(doc@.len() as int) == doc@);
    None
}

/// A section that is invalid in a prefix is the first invalid one overall.
pub proof fn lemma_invalid_prefix(doc: Seq<(String, TomlValue)>, n: int)
    requires
        0 <= n <= doc.len(),
        first_invalid_section(doc.take(n)) is Some,
    ensures
        first_invalid_section(doc) == first_invalid_section(doc.take(n)),
    decreases doc.len() - n,
{
    if n < doc.len() {
        assert(doc.take(n + 1).drop_last() == doc.take(n));
        lemma_invalid_prefix(doc, n + 1);
    } else {
        assert(doc.take(n) == doc);
    }
}

/// Views of a map from names to string lists.
pub open spec fn list_views(m: Seq<(String, Vec<String>)>) -> Seq<(Seq<char>, Seq<Seq<char>>)> {
    m.map_values(|e: (String, Vec<String>)| (e.0@, views(e.1@)))
}

/// Stores a list under a name, in name order.
fn insert_list(m: &mut Vec<(String, Vec<String>)>, k: String, l: Vec<String>)
    ensures
        list_views(final(m)@) == key_insert(list_views(old(m)@), k@, views(l@)),
{
    proof {
        assert forall|i: int| 0 <= i < m@.len() implies #[trigger] pairs(m@)[i].0 == list_views(m@)[i].0 by {}
        lemma_same_keys(pairs(m@), list_views(m@), k@);
    }
    let ghost before = m@;
    let ghost kv = k@;
    let ghost lv = views(l@);
    match crate::order::key_find(m, k.as_str()) {
        Some(i) => {
            m.set(i, (k, l));
            assert(list_views(m@) =~= list_views(before).update(i as int, (kv, lv)));
        },
        None => {
            let p = crate::order::find_insert_pos(m, k.as_str());
            m.insert(p, (k, l));
            assert(list_views(m@) =~= list_views(before).insert(p as int, (kv, lv)));
        },
    }
}

/// Executable form of [`feature_lists`].
fn build_feature_lists(es: &Vec<(String, TomlValue)>) -> (r: Vec<(String, Vec<String>)>)
    ensures
        list_views(r@) == feature_lists(es@),
{
    let mut m: Vec<(String, Vec<String>)> = Vec::new();
    assert(list_views(m@) =~= Seq::<(Seq<char>, Seq<Seq<char>>)>::empty());
    let mut i: usize = 0;
    while i < es.len()
        invariant
            i <= es@.len(),
            list_views(m@) == feature_lists(es@.take(i as int)),
        decreases es@.len() - i,
    {
        assert(es@.take(i as int + 1).drop_last() == es@.take(i as int));
        assert(es@.take(i as int + 1).last() == es@[i as int]);
        match string_list_exec(&es[i].1) {
            Some(l) => insert_list(&mut m, es[i].0.clone(), l),
            None => {},
        }
        i = i + 1;
    }
    assert(es@.take(es@.len() as int) == es@);
    m
}

/// Parses each entry of a list.
fn parse_refs(l: &Vec<String>) -> (r: Vec<crate::model::FeatureRef>)
    ensures
        crate::model::ref_views(r@) == views(l@).map_values(|e: Seq<char>| crate::model::parse_ref(e)),
{
    let mut r: Vec<crate::model::FeatureRef> = Vec::new();
    let mut i: usize = 0;
    while i < l.len()
        invariant
            i <= l@.len(),
            crate::model::ref_views(r@) == views(l@).map_values(
                |e: Seq<char>| crate::model::parse_ref(e),
            ).take(i as int),
        decreases l@.len() - i,
    {
        let ghost before = crate::model::ref_views(r@);
        let x = crate::model::FeatureRef::parse(l[i].as_str());
        r.push(x);
        assert(crate::model::ref_views(r@) =~= before.push(x@));
        assert(crate::model::ref_views(r@) =~= views(l@).map_values(
            |e: Seq<char>| crate::model::parse_ref(e),
        ).take(i as int + 1));
        i = i + 1;
    }
    assert(views(l@).map_values(|e: Seq<char>| crate::model::parse_ref(e)).take(l@.len() as int)
        =~= views(l@).map_values(|e: Seq<char>| crate::model::parse_ref(e)));
    r
}

/// The local feature names among references, as strings.
fn local_feature_names(rs: &Vec<crate::model::FeatureRef>) -> (r: Vec<String>)
    ensures
        views(r@) == local_names(crate::model::ref_views(rs@)),
{
    let ghost rv = crate::model::ref_views(rs@);
    let mut r: Vec<String> = Vec::new();
    let mut i: usize = 0;
    while i < rs.len()
        invariant
            i <= rs@.len(),
            rv == crate::model::ref_views(rs@),
            views(r@) == local_names(rv.take(i as int)),
        decreases rs@.len() - i,
    {
        assert(rv.take(i as int + 1).drop_last() == rv.take(i as int));
        assert(rv.take(i as int + 1).last() == rs@[i as int]@);
        let ghost before = views(r@);
        match rs[i].local_feature_name() {
            Some(n) => {
                r.push(owned(n));
                assert(views(r@) =~= before.push(n@));
            },
            None => {},
        }
        assert(views(r@) =~= local_names(rv.take(i as int + 1)));
        i = i + 1;
    }
    assert(rv.take(rs@.len() as int) == rv);
    r
}

/// Metadata of a name in a metadata map, copied, if present.
fn metadata_of(md: &Vec<(String, FeatureMetadata)>, name: &str) -> (r: Option<FeatureMetadata>)
    ensures
        match r {
            Some(m) => crate::order::key_value(entry_views(md@), name@) == Some(m@),
            None => crate::order::key_value(entry_views(md@), name@) is None,
        },
{
    proof {
        assert forall|i: int| 0 <= i < md@.len() implies #[trigger] pairs(md@)[i].0 == entry_views(md@)[i].0 by {}
        lemma_same_keys(pairs(md@), entry_views(md@), name@);
    }
    match crate::order::key_find(md, name) {
        Some(i) => {
            assert(entry_views(md@)[i as int].1 == md@[i as int].1@);
            Some(md[i].1.duplicate())
        },
        None => None,
    }
}

/// Executable form of [`declared_features`].
fn build_features(
    lists: &Vec<(String, Vec<String>)>,
    md: &Vec<(String, FeatureMetadata)>,
    defaults: &Vec<String>,
) -> (r: Vec<crate::model::Feature>)
    ensures
        crate::model::feature_views(r@) == declared_features(
            list_views(lists@),
            entry_views(md@),
            views(defaults@),
        ),
{
    let ghost lv = list_views(lists@);
    let mut r: Vec<crate::model::Feature> = Vec::new();
    let mut i: usize = 0;
    while i < lists.len()
        invariant
            i <= lists@.len(),
            lv == list_views(lists@),
            crate::model::feature_views(r@) == declared_features(
                lv.take(i as int),
                entry_views(md@),
                views(defaults@),
            ),
        decreases lists@.len() - i,
    {
        assert(lv.take(i as int + 1).drop_last() == lv.take(i as int));
        assert(lv.take(i as int + 1).last() == lv[i as int]);
        let name = &lists[i].0;
        let ghost before = crate::model::feature_views(r@);
        if !str_eq(name.as_str(), "default") {
            let (metadata, has_metadata) = match metadata_of(md, name.as_str()) {
                Some(m) => (m, true),
                None => (FeatureMetadata::default(), false),
            };
            proof {
                crate::order::lemma_key_index(entry_views(md@), name@);
            }
            let f = crate::model::Feature {
                name: name.clone(),
                metadata,
                has_metadata,
                enables: parse_refs(&lists[i].1),
                default_enabled: crate::model::contains_string(defaults, name.as_str()),
            };
            r.push(f);
            assert(crate::model::feature_views(r@) =~= before.push(f@));
        }
        assert(crate::model::feature_views(r@) =~= declared_features(
            lv.take(i as int + 1),
            entry_views(md@),
            views(defaults@),
        ));
        i = i + 1;
    }
    assert(lv.take(lists@.len() as int) == lv);
    r
}

/// Executable form of [`undeclared_metadata`].
fn build_metadata_only(
    md: &Vec<(String, FeatureMetadata)>,
    lists: &Vec<(String, Vec<String>)>,
) -> (r: Vec<(String, FeatureMetadata)>)
    ensures
        entry_views(r@) == undeclared_metadata(entry_views(md@), list_views(lists@)),
{
    let ghost mv = entry_views(md@);
    proof {
        assert forall|i: int| 0 <= i < lists@.len() implies #[trigger] pairs(lists@)[i].0 == list_views(
            lists@,
        )[i].0 by {}
    }
    let mut r: Vec<(String, FeatureMetadata)> = Vec::new();
    let mut i: usize = 0;
    while i < md.len()
        invariant
            i <= md@.len(),
            mv == entry_views(md@),
            forall|j: int| 0 <= j < lists@.len() ==> #[trigger] pairs(lists@)[j].0 == list_views(
                lists@,
            )[j].0,
            entry_views(r@) == undeclared_metadata(mv.take(i as int), list_views(lists@)),
        decreases md@.len() - i,
    {
        assert(mv.take(i as int + 1).drop_last() == mv.take(i as int));
        assert(mv.take(i as int + 1).last() == mv[i as int]);
        let name = &md[i].0;
        proof {
            lemma_same_keys(pairs(lists@), list_views(lists@), name@);
        }
        let declared = match crate::order::key_find(lists, name.as_str()) {
            Some(_) => !str_eq(name.as_str(), "default"),
            None => false,
        };
        let ghost before = entry_views(r@);
        if !declared {
            let e = (name.clone(), md[i].1.duplicate());
            r.push(e);
            assert(entry_views(r@) =~= before.push(mv[i as int]));
        }
        assert(entry_views(r@) =~= undeclared_metadata(mv.take(i as int + 1), list_views(lists@)));
        i = i + 1;
    }
    assert(mv.take(md@.len() as int) == mv);
    r
}

/// The entries of a table value, or none (executable form of [`table_entries`]).
fn entries_of<'a>(v: Option<&'a TomlValue>, empty: &'a Vec<(String, TomlValue)>) -> (r: &'a Vec<(String, TomlValue)>)
    requires
        empty@.len() == 0,
    ensures
        r@ == table_entries(
            match v {
                Some(x) => Some(*x),
                None => None,
            },
        ),
{
    match v {
        Some(TomlValue::Table(es)) => es,
        _ => empty,
    }
}

/// Reads a parsed manifest document into a [`FeatureManifest`]: the Cargo
/// sections are checked for shape, then features, dependencies, and the
/// metadata table are normalized.
pub fn manifest_from_document(doc: &Vec<(String, TomlValue)>, path: &str) -> (r: Result<crate::model::FeatureManifest, ManifestError>)
    ensures
        match manifest_from_doc(doc@, path@) {
            Ok(m) => r matches Ok(x) && x@ == m,
            Err(e) => r matches Err(f) && f@ == e,
        },
        r matches Ok(x) ==> crate::model::manifest_well_formed(x@),
{
    proof {
        lemma_manifest_well_formed(doc@, path@);
    }
    match find_invalid_section(doc) {
        Some(k) => {
            return Err(ManifestError::InvalidManifest(k));
        },
        None => {},
    }
    let empty: Vec<(String, TomlValue)> = Vec::new();
    let package = entries_of(get_entry(doc, "package"), &empty);
    let package_name = match get_entry(package, "name") {
        Some(TomlValue::String(s)) => Some(s.clone()),
        _ => None,
    };
    let metadata = match get_entry(package, "metadata") {
        Some(TomlValue::Table(m)) => Some(m),
        _ => None,
    };
    let lists = build_feature_lists(entries_of(get_entry(doc, "features"), &empty));
    let default_members = match crate::order::key_find(&lists, "default") {
        Some(i) => {
            assert(crate::order::key_value(list_views(lists@), "default"@) == Some(views(lists@[i as int].1@))) by {
                assert forall|j: int| 0 <= j < lists@.len() implies #[trigger] pairs(lists@)[j].0 == list_views(
                    lists@,
                )[j].0 by {}
                lemma_same_keys(pairs(lists@), list_views(lists@), "default"@);
            }
            parse_refs(&lists[i].1)
        },
        None => {
            proof {
                assert forall|j: int| 0 <= j < lists@.len() implies #[trigger] pairs(lists@)[j].0 == list_views(
                    lists@,
                )[j].0 by {}
                lemma_same_keys(pairs(lists@), list_views(lists@), "default"@);
            }
            let v: Vec<crate::model::FeatureRef> = Vec::new();
            assert(crate::model::ref_views(v@) =~= Seq::<crate::model::RefModel>::empty());
            v
        },
    };
    let default_features = crate::order::sorted_set_exec(&local_feature_names(&default_members));
    let mut dependencies: Vec<DependencyInfo> = Vec::new();
    assert(crate::model::dependency_views(dependencies@) =~= Seq::<DependencyModel>::empty());
    add_dependencies(&mut dependencies, entries_of(get_entry(doc, "dependencies"), &empty));
    add_target_dependencies(&mut dependencies, entries_of(get_entry(doc, "target"), &empty));
    let x = match extract_metadata(metadata) {
        Ok(x) => x,
        Err(e) => {
            return Err(e);
        },
    };
    let features = build_features(&lists, &x.features, &default_features);
    let metadata_only = build_metadata_only(&x.features, &lists);
    Ok(
        crate::model::FeatureManifest {
            manifest_path: owned(path),
            package_name,
            metadata_table: x.table,
            metadata_layout: x.layout,
            features,
            metadata_only,
            default_members,
            default_features,
            groups: x.groups,
            dependencies,
            lint_overrides: x.lints,
            lint_preset: x.preset,
        },
    )
}

/// The `[features]` table's names are strictly ascending.
pub proof fn lemma_feature_lists_sorted(es: Seq<(String, TomlValue)>)
    ensures
        crate::order::keys_sorted(feature_lists(es)),
    decreases es.len(),
{
    if es.len() > 0 {
        lemma_feature_lists_sorted(es.drop_last());
        match string_list(es.last().1) {
            Some(l) => crate::order::lemma_key_insert_sorted(feature_lists(es.drop_last()), es.last().0@, l),
            None => {},
        }
    }
}

/// The declared features keep the order of the `[features]` table's names.
pub proof fn lemma_declared_sorted(
    lists: Seq<(Seq<char>, Seq<Seq<char>>)>,
    md: Seq<(Seq<char>, MetadataModel)>,
    defaults: Seq<Seq<char>>,
)
    requires
        crate::order::keys_sorted(lists),
    ensures
        crate::model::names_ascending(declared_features(lists, md, defaults)),
        forall|i: int| 0 <= i < declared_features(lists, md, defaults).len() ==> exists|k: int|
            0 <= k < lists.len() && #[trigger] declared_features(lists, md, defaults)[i].name == lists[k].0,
    decreases lists.len(),
{
    if lists.len() > 0 {
        let init = lists.drop_last();
        assert(crate::order::keys_sorted(init)) by {
            assert forall|a: int, b: int| 0 <= a < b < init.len() implies crate::order::str_less(#[trigger] init[a].0, #[trigger] init[b].0) by {
                assert(init[a] == lists[a] && init[b] == lists[b]);
            }
        }
        lemma_declared_sorted(init, md, defaults);
        let prev = declared_features(init, md, defaults);
        let all = declared_features(lists, md, defaults);
        assert forall|i: int| 0 <= i < prev.len() implies crate::order::str_less(prev[i].name, lists.last().0) by {
            let k = choose|k: int| 0 <= k < init.len() && #[trigger] prev[i].name == init[k].0;
            assert(init[k] == lists[k]);
            assert(crate::order::str_less(lists[k].0, lists[lists.len() - 1].0));
        }
        assert forall|a: int, b: int| 0 <= a < b < all.len() implies crate::order::str_less(#[trigger] all[a].name, #[trigger] all[b].name) by {
            assert(all[a] == prev[a]);
            if b < prev.len() {
                assert(all[b] == prev[b]);
            } else {
                assert(all[b].name == lists.last().0);
            }
        }
        assert forall|i: int| 0 <= i < all.len() implies exists|k: int|
            0 <= k < lists.len() && #[trigger] all[i].name == lists[k].0 by {
            if i < prev.len() {
                assert(all[i] == prev[i]);
                let k = choose|k: int| 0 <= k < init.len() && #[trigger] prev[i].name == init[k].0;
                assert(init[k] == lists[k]);
            } else {
                assert(all[i].name == lists[lists.len() - 1].0);
            }
        }
    }
}

/// Lint levels read from a table are stored in ascending code order.
pub proof fn lemma_lints_sorted(es: Seq<(String, TomlValue)>)
    ensures
        lints_in(es) matches Some(l) ==> crate::order::keys_sorted(l),
    decreases es.len(),
{
    if es.len() > 0 {
        lemma_lints_sorted(es.drop_last());
        if let Some(m) = lints_in(es.drop_last()) {
            if let Some(sv) = string_value(es.last().1) {
                if let Some(l) = level_named(sv) {
                    crate::order::lemma_key_insert_sorted(m, es.last().0@, l);
                }
            }
        }
    }
}

/// Metadata entries are stored in ascending name order.
pub proof fn lemma_metadata_entries_sorted(
    m: Seq<(Seq<char>, MetadataModel)>,
    es: Seq<(String, TomlValue)>,
    table: Seq<char>,
    skip_reserved: bool,
)
    requires
        crate::order::keys_sorted(m),
    ensures
        metadata_entries(m, es, table, skip_reserved) matches Ok(r) ==> crate::order::keys_sorted(r),
    decreases es.len(),
{
    if es.len() > 0 {
        lemma_metadata_entries_sorted(m, es.drop_last(), table, skip_reserved);
        if let Ok(acc) = metadata_entries(m, es.drop_last(), table, skip_reserved) {
            if let Some(md) = metadata_from(es.last().1) {
                crate::order::lemma_key_insert_sorted(acc, es.last().0@, md);
            }
        }
    }
}

/// The metadata read from a package keeps its maps in ascending key order.
pub proof fn lemma_extracted_sorted(metadata: Option<Seq<(String, TomlValue)>>)
    ensures
        extracted(metadata) matches Ok(x) ==> crate::order::keys_sorted(x.features)
            && crate::order::keys_sorted(x.lints),
{
    if let Some(md) = metadata {
        let found: Option<(Seq<char>, TomlValue)> = match entry(md, "feature-manifest"@) {
            Some(v) => Some(("feature-manifest"@, v)),
            None => match entry(md, "feature-docs"@) {
                Some(v) => Some(("feature-docs"@, v)),
                None => None,
            },
        };
        if let Some((name, TomlValue::Table(es))) = found {
            let es = es@;
            lemma_metadata_entries_sorted(Seq::empty(), Seq::empty(), name, false);
            if let Some(TomlValue::Table(fes)) = entry(es, "features"@) {
                lemma_metadata_entries_sorted(Seq::empty(), fes@, name, false);
            }
            let nested: Result<Seq<(Seq<char>, MetadataModel)>, ManifestFault> = match entry(es, "features"@) {
                Some(TomlValue::Table(fes)) => metadata_entries(Seq::empty(), fes@, name, false),
                Some(_) => Err(ManifestFault::FeaturesNotTable(name)),
                None => Ok(Seq::empty()),
            };
            if let Ok(m) = nested {
                lemma_metadata_entries_sorted(m, es, name, true);
            }
            if let Some(TomlValue::Table(les)) = entry(es, "lints"@) {
                lemma_lints_sorted(les@);
            }
        }
    }
}

/// The stale metadata entries keep the metadata's order.
pub proof fn lemma_undeclared_sorted(md: Seq<(Seq<char>, MetadataModel)>, lists: Seq<(Seq<char>, Seq<Seq<char>>)>)
    requires
        crate::order::keys_sorted(md),
    ensures
        crate::order::keys_sorted(undeclared_metadata(md, lists)),
        forall|i: int| 0 <= i < undeclared_metadata(md, lists).len() ==> exists|k: int|
            0 <= k < md.len() && #[trigger] undeclared_metadata(md, lists)[i] == md[k],
    decreases md.len(),
{
    if md.len() > 0 {
        let init = md.drop_last();
        assert(crate::order::keys_sorted(init)) by {
            assert forall|a: int, b: int| 0 <= a < b < init.len() implies crate::order::str_less(#[trigger] init[a].0, #[trigger] init[b].0) by {
                assert(init[a] == md[a] && init[b] == md[b]);
            }
        }
        lemma_undeclared_sorted(init, lists);
        let prev = undeclared_metadata(init, lists);
        let all = undeclared_metadata(md, lists);
        assert forall|i: int| 0 <= i < all.len() implies exists|k: int| 0 <= k < md.len() && #[trigger] all[i] == md[k] by {
            if i < prev.len() {
                assert(all[i] == prev[i]);
                let k = choose|k: int| 0 <= k < init.len() && #[trigger] prev[i] == init[k];
                assert(init[k] == md[k]);
            } else {
                assert(all[i] == md[md.len() - 1]);
            }
        }
        assert forall|a: int, b: int| 0 <= a < b < all.len() implies crate::order::str_less(#[trigger] all[a].0, #[trigger] all[b].0) by {
            assert(all[a] == prev[a]);
            if b < prev.len() {
                assert(all[b] == prev[b]);
            } else {
                let k = choose|k: int| 0 <= k < init.len() && #[trigger] prev[a] == init[k];
                assert(init[k] == md[k]);
                assert(all[b] == md[md.len() - 1]);
            }
        }
    }
}

/// Storing a dependency keeps the keys strictly ascending.
pub proof fn lemma_dependency_insert_sorted(ds: Seq<DependencyModel>, d: DependencyModel)
    requires
        crate::model::dependency_keys_ascending(ds),
    ensures
        crate::model::dependency_keys_ascending(dependency_insert(ds, d)),
{
    let pairs_of = ds.map_values(|x: DependencyModel| (x.key, x));
    assert(crate::order::keys_sorted(pairs_of)) by {
        assert forall|a: int, b: int| 0 <= a < b < pairs_of.len() implies crate::order::str_less(#[trigger] pairs_of[a].0, #[trigger] pairs_of[b].0) by {
            assert(pairs_of[a].0 == ds[a].key && pairs_of[b].0 == ds[b].key);
        }
    }
    lemma_dependency_index_pairs(ds, d.key);
    lemma_dependency_pos_pairs(ds, d.key);
    crate::order::lemma_key_insert_sorted(pairs_of, d.key, d);
    let r = dependency_insert(ds, d);
    let q = crate::order::key_insert(pairs_of, d.key, d);
    crate::order::lemma_key_index(pairs_of, d.key);
    crate::order::lemma_insert_pos(pairs_of, d.key);
    assert(r.map_values(|x: DependencyModel| (x.key, x)) =~= q);
    assert forall|k: int| 0 <= k < r.len() implies r[k].key == q[k].0 by {
        assert(r.map_values(|x: DependencyModel| (x.key, x))[k] == (r[k].key, r[k]));
    }
    assert forall|a: int, b: int| 0 <= a < b < r.len() implies crate::order::str_less(#[trigger] r[a].key, #[trigger] r[b].key) by {
        assert(r[a].key == q[a].0 && r[b].key == q[b].0);
    }
}

/// Finding a dependency by key is finding the key among key and dependency pairs.
pub proof fn lemma_dependency_index_pairs(ds: Seq<DependencyModel>, key: Seq<char>)
    ensures
        crate::validate::dependency_index(ds, key) == key_index(ds.map_values(|x: DependencyModel| (x.key, x)), key),
    decreases ds.len(),
{
    if ds.len() > 0 {
        lemma_dependency_index_pairs(ds.drop_first(), key);
        assert(ds.drop_first().map_values(|x: DependencyModel| (x.key, x)) =~= ds.map_values(
            |x: DependencyModel| (x.key, x),
        ).drop_first());
    }
}

/// The insertion position of a dependency is that of its key among pairs.
pub proof fn lemma_dependency_pos_pairs(ds: Seq<DependencyModel>, key: Seq<char>)
    ensures
        dependency_insert_pos(ds, key) == crate::order::insert_pos(ds.map_values(|x: DependencyModel| (x.key, x)), key),
    decreases ds.len(),
{
    if ds.len() > 0 {
        lemma_dependency_pos_pairs(ds.drop_first(), key);
        assert(ds.drop_first().map_values(|x: DependencyModel| (x.key, x)) =~= ds.map_values(
            |x: DependencyModel| (x.key, x),
        ).drop_first());
    }
}

/// Dependencies read from a table keep their keys strictly ascending.
pub proof fn lemma_dependencies_in_sorted(ds: Seq<DependencyModel>, es: Seq<(String, TomlValue)>)
    requires
        crate::model::dependency_keys_ascending(ds),
    ensures
        crate::model::dependency_keys_ascending(dependencies_in(ds, es)),
    decreases es.len(),
{
    if es.len() > 0 {
        lemma_dependencies_in_sorted(ds, es.drop_last());
        if let Some(d) = dependency_from(es.last().0@, es.last().1) {
            lemma_dependency_insert_sorted(dependencies_in(ds, es.drop_last()), d);
        }
    }
}

/// Dependencies of the targets keep their keys strictly ascending.
pub proof fn lemma_target_sorted(ds: Seq<DependencyModel>, ts: Seq<(String, TomlValue)>)
    requires
        crate::model::dependency_keys_ascending(ds),
    ensures
        crate::model::dependency_keys_ascending(target_dependencies(ds, ts)),
    decreases ts.len(),
{
    if ts.len() > 0 {
        lemma_target_sorted(ds, ts.drop_last());
        let before = target_dependencies(ds, ts.drop_last());
        if let TomlValue::Table(tes) = ts.last().1 {
            if let Some(TomlValue::Table(des)) = entry(tes@, "dependencies"@) {
                lemma_dependencies_in_sorted(before, des@);
            }
        }
    }
}

/// A manifest read from a document keeps its keyed lists in strictly
/// ascending order.
pub proof fn lemma_manifest_well_formed(doc: Seq<(String, TomlValue)>, path: Seq<char>)
    ensures
        manifest_from_doc(doc, path) matches Ok(m) ==> crate::model::manifest_well_formed(m),
{
    if manifest_from_doc(doc, path) is Ok {
        let lists = feature_lists(table_entries(entry(doc, "features"@)));
        lemma_feature_lists_sorted(table_entries(entry(doc, "features"@)));
        let package = table_entries(entry(doc, "package"@));
        let metadata = match entry(package, "metadata"@) {
            Some(TomlValue::Table(m)) => Some(m@),
            _ => None,
        };
        let default_members = match crate::order::key_value(lists, "default"@) {
            Some(l) => l.map_values(|e: Seq<char>| crate::model::parse_ref(e)),
            None => Seq::empty(),
        };
        lemma_extracted_sorted(metadata);
        let x = extracted(metadata)->Ok_0;
        lemma_declared_sorted(lists, x.features, crate::order::sorted_set(local_names(default_members)));
        lemma_undeclared_sorted(x.features, lists);
        lemma_dependencies_in_sorted(Seq::empty(), table_entries(entry(doc, "dependencies"@)));
        lemma_target_sorted(
            dependencies_in(Seq::empty(), table_entries(entry(doc, "dependencies"@))),
            table_entries(entry(doc, "target"@)),
        );
    }
}

/// Parses a manifest from its TOML text: the text is parsed as TOML, then the
/// document is read as by [`manifest_from_document`].
pub fn parse_manifest_str(source: &str, manifest_path: &str) -> (r: Result<crate::model::FeatureManifest, ManifestError>)
    ensures
        match crate::toml_text::toml_document(source@) {
            None => r matches Err(ManifestError::InvalidToml(_)),
            Some(doc) => match manifest_from_doc(doc, manifest_path@) {
                Ok(m) => r matches Ok(x) && x@ == m,
                Err(e) => r matches Err(f) && f@ == e,
            },
        },
        r matches Ok(x) ==> crate::model::manifest_well_formed(x@),
{
    match crate::toml_text::parse_toml(source) {
        Ok(doc) => manifest_from_document(&doc, manifest_path),
        Err(message) => Err(ManifestError::InvalidToml(message)),
    }
}

} // verus!
