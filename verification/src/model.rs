//! Normalized feature, dependency, metadata, lint, and workspace types.

use vstd::prelude::*;

use crate::order::pairs;
use crate::text::{all_space, chars_of, is_blank, owned, str_eq, string_of_range, views};

verus! {

/// Configured level for one lint code.
#[derive(Debug, Clone, Copy, PartialEq, Eq, Structural)]
pub enum LintLevel {
    /// Drop the finding.
    Allow,
    /// Report the finding as a warning.
    Warn,
    /// Report the finding as an error.
    Deny,
}

/// Named bundle of lint levels.
#[derive(Debug, Clone, Copy, PartialEq, Eq, Structural)]
pub enum LintPreset {
    /// Downgrades documentation drift to warnings while a project is onboarding.
    Adopt,
    /// Upgrades subjective warnings to errors.
    Strict,
}

/// How feature metadata is laid out inside the metadata table.
#[derive(Debug, Clone, Copy, PartialEq, Eq, Structural)]
pub enum MetadataLayout {
    /// Entries sit directly in `[package.metadata.<table>]`.
    Flat,
    /// Entries sit in `[package.metadata.<table>.features]`.
    Structured,
}

/// Optional string fields seen through their characters.
pub open spec fn opt_view(o: Option<String>) -> Option<Seq<char>> {
    match o {
        Some(s) => Some(s@),
        None => None,
    }
}

/// Copies an optional string.
pub fn copy_opt(o: &Option<String>) -> (r: Option<String>)
    ensures
        opt_view(r) == opt_view(*o),
{
    match o {
        Some(s) => Some(s.clone()),
        None => None,
    }
}

/// Copies a list of strings.
pub fn copy_strings(v: &Vec<String>) -> (r: Vec<String>)
    ensures
        views(r@) == views(v@),
{
    let mut r: Vec<String> = Vec::new();
    let mut i: usize = 0;
    while i < v.len()
        invariant
            i <= v@.len(),
            views(r@) == views(v@).take(i as int),
        decreases v@.len() - i,
    {
        r.push(v[i].clone());
        assert(views(v@).take(i as int + 1) == views(v@).take(i as int).push(v@[i as int]@));
        i = i + 1;
    }
    assert(views(v@).take(v@.len() as int) == views(v@));
    r
}

/// A typed reference inside a feature definition.
#[derive(Debug, Clone, PartialEq, Eq)]
pub enum FeatureRef {
    /// A local feature such as `serde`.
    Feature { name: String },
    /// An optional dependency activation such as `dep:serde`.
    Dependency { name: String },
    /// A dependency feature such as `tokio/rt` or, when weak, `tokio?/rt`.
    DependencyFeature { dependency: String, feature: String, weak: bool },
    /// Syntax that could not be classified.
    Unknown { raw: String },
}

/// The characters of a [`FeatureRef`].
pub enum RefModel {
    Feature(Seq<char>),
    Dependency(Seq<char>),
    DependencyFeature(Seq<char>, Seq<char>, bool),
    Unknown(Seq<char>),
}

impl View for FeatureRef {
    type V = RefModel;

    open spec fn view(&self) -> RefModel {
        match self {
            FeatureRef::Feature { name } => RefModel::Feature(name@),
            FeatureRef::Dependency { name } => RefModel::Dependency(name@),
            FeatureRef::DependencyFeature { dependency, feature, weak } => RefModel::DependencyFeature(
                dependency@,
                feature@,
                *weak,
            ),
            FeatureRef::Unknown { raw } => RefModel::Unknown(raw@),
        }
    }
}

/// Views of a list of references.
pub open spec fn ref_views(v: Seq<FeatureRef>) -> Seq<RefModel> {
    v.map_values(|r: FeatureRef| r@)
}

/// Whether `p` occurs in `s` at index `i`.
pub open spec fn occurs_at(s: Seq<char>, p: Seq<char>, i: int) -> bool {
    0 <= i && i + p.len() <= s.len() && s.subrange(i, i + p.len()) == p
}

/// First index at or after `i` where `p` occurs in `s` (`str::find`).
pub open spec fn find_from(s: Seq<char>, p: Seq<char>, i: int) -> Option<int>
    decreases s.len() + 1 - i,
{
    if i < 0 || i + p.len() > s.len() {
        None
    } else if occurs_at(s, p, i) {
        Some(i)
    } else {
        find_from(s, p, i + 1)
    }
}

/// First index where `p` occurs in `s`.
pub open spec fn find(s: Seq<char>, p: Seq<char>) -> Option<int> {
    find_from(s, p, 0)
}

/// A found index lies where the pattern occurs, and nothing before it does.
pub proof fn lemma_find_from(s: Seq<char>, p: Seq<char>, i: int)
    requires
        0 <= i,
    ensures
        find_from(s, p, i) matches Some(k) ==> i <= k && occurs_at(s, p, k),
        find_from(s, p, i) matches Some(k) ==> forall|j: int| i <= j < k ==> !occurs_at(s, p, j),
        find_from(s, p, i) is None ==> forall|j: int| i <= j ==> !occurs_at(s, p, j),
    decreases s.len() + 1 - i,
{
    if i + p.len() > s.len() {
    } else if !occurs_at(s, p, i) {
        lemma_find_from(s, p, i + 1);
    }
}

/// Whether `p` occurs at `v[i..]`.
pub fn occurs_at_exec(v: &Vec<char>, p: &Vec<char>, i: usize) -> (b: bool)
    ensures
        b == occurs_at(v@, p@, i as int),
{
    if i > v.len() || p.len() > v.len() - i {
        return false;
    }
    let mut k: usize = 0;
    while k < p.len()
        invariant
            i + p@.len() <= v@.len(),
            v@.len() == v.len(),
            k <= p@.len(),
            forall|j: int| 0 <= j < k ==> v@[i + j] == p@[j],
        decreases p@.len() - k,
    {
        if v[i + k] != p[k] {
            assert(v@.subrange(i as int, i + p@.len())[k as int] != p@[k as int]);
            return false;
        }
        k = k + 1;
    }
    assert(v@.subrange(i as int, i + p@.len()) == p@);
    true
}

/// Executable form of [`find_from`].
pub fn find_from_exec(v: &Vec<char>, p: &Vec<char>, from: usize) -> (r: Option<usize>)
    ensures
        match r {
            Some(k) => find_from(v@, p@, from as int) == Some(k as int),
            None => find_from(v@, p@, from as int) is None,
        },
{
    let mut i = from;
    while i <= v.len() && p.len() <= v.len() - i
        invariant
            from <= i,
            find_from(v@, p@, from as int) == find_from(v@, p@, i as int),
        decreases v@.len() + 1 - i,
    {
        if occurs_at_exec(v, p, i) {
            return Some(i);
        }
        if i == v.len() {
            assert(v@.subrange(i as int, i as int) =~= p@);
            return None;
        }
        i = i + 1;
    }
    None
}

/// Text after a prefix, when `s` starts with it (`str::strip_prefix`).
pub open spec fn strip_prefix(s: Seq<char>, p: Seq<char>) -> Option<Seq<char>> {
    if p.len() <= s.len() && s.take(p.len() as int) == p {
        Some(s.skip(p.len() as int))
    } else {
        None
    }
}

/// Whether `s` starts with `p`.
pub fn starts_with_exec(s: &Vec<char>, p: &Vec<char>) -> (b: bool)
    ensures
        b == (p@.len() <= s@.len() && s@.take(p@.len() as int) == p@),
{
    let b = occurs_at_exec(s, p, 0);
    proof {
        if p@.len() <= s@.len() {
            assert(s@.subrange(0, p@.len() as int) == s@.take(p@.len() as int));
        }
    }
    b
}

/// The parts around the first occurrence of `p` (`str::split_once`).
pub open spec fn split_once(s: Seq<char>, p: Seq<char>) -> Option<(Seq<char>, Seq<char>)> {
    match find(s, p) {
        Some(i) => Some((s.take(i), s.skip(i + p.len()))),
        None => None,
    }
}

/// Executable form of [`split_once`].
pub fn split_once_exec(v: &Vec<char>, p: &Vec<char>) -> (r: Option<(String, String)>)
    ensures
        match r {
            Some((a, b)) => split_once(v@, p@) == Some((a@, b@)),
            None => split_once(v@, p@) is None,
        },
{
    match find_from_exec(v, p, 0) {
        Some(i) => {
            proof {
                lemma_find_from(v@, p@, 0);
                assert(occurs_at(v@, p@, i as int));
                assert(i + p@.len() <= v@.len());
            }
            let a = string_of_range(v, 0, i);
            assert(p.len() == p@.len());
            assert(i + p.len() <= v.len());
            let rest_start = i + p.len();
            let b = string_of_range(v, rest_start, v.len());
            assert(v@.subrange(0, i as int) == v@.take(i as int));
            assert(v@.subrange(i + p@.len(), v@.len() as int) == v@.skip(i + p@.len()));
            Some((a, b))
        },
        None => None,
    }
}

/// The reference denoted by the two halves of a `dependency/feature` entry.
pub open spec fn dependency_feature_ref(parts: Option<(Seq<char>, Seq<char>)>, weak: bool) -> RefModel {
    match parts {
        Some((dependency, feature)) => RefModel::DependencyFeature(dependency, feature, weak),
        None => RefModel::Unknown(Seq::empty()),
    }
}

/// The reference that a raw entry of a `[features]` array denotes.
pub open spec fn parse_ref(raw: Seq<char>) -> RefModel {
    if strip_prefix(raw, "dep:"@) is Some {
        RefModel::Dependency(strip_prefix(raw, "dep:"@)->0)
    } else if split_once(raw, "?/"@) is Some {
        dependency_feature_ref(split_once(raw, "?/"@), true)
    } else if split_once(raw, "/"@) is Some {
        dependency_feature_ref(split_once(raw, "/"@), false)
    } else if all_space(raw) {
        RefModel::Unknown(raw)
    } else {
        RefModel::Feature(raw)
    }
}

/// How a reference is written in `Cargo.toml` (`Display`).
pub open spec fn ref_text(r: RefModel) -> Seq<char> {
    match r {
        RefModel::Feature(name) => name,
        RefModel::Dependency(name) => "dep:"@ + name,
        RefModel::DependencyFeature(dependency, feature, weak) => if weak {
            dependency + "?/"@ + feature
        } else {
            dependency + "/"@ + feature
        },
        RefModel::Unknown(raw) => raw,
    }
}

/// Splitting at a separator and joining the parts around it gives the text back.
pub proof fn lemma_split_once_joins(s: Seq<char>, p: Seq<char>)
    ensures
        split_once(s, p) matches Some((a, b)) ==> a + p + b == s,
{
    lemma_find_from(s, p, 0);
    if let Some(k) = find(s, p) {
        assert(s.subrange(k, k + p.len()) == p);
        assert(s.take(k) + p + s.skip(k + p.len()) =~= s);
    }
}

/// A reference written back reads as the entry it was parsed from.
pub proof fn law_reference_text_round_trip(raw: Seq<char>)
    ensures
        ref_text(parse_ref(raw)) == raw,
{
    if strip_prefix(raw, "dep:"@) is Some {
        reveal_strlit("dep:");
        assert("dep:"@ + raw.skip(4) =~= raw);
    } else if split_once(raw, "?/"@) is Some {
        lemma_split_once_joins(raw, "?/"@);
    } else if split_once(raw, "/"@) is Some {
        lemma_split_once_joins(raw, "/"@);
    }
}

/// The local feature that a reference names, if it names one.
pub open spec fn local_name(r: RefModel) -> Option<Seq<char>> {
    match r {
        RefModel::Feature(name) => Some(name),
        _ => None,
    }
}

impl FeatureRef {
    /// Classifies one raw entry of a `[features]` array.
    pub fn parse(raw: &str) -> (r: Self)
        ensures
            r@ == parse_ref(raw@),
    {
        let v = chars_of(raw);
        let dep = chars_of("dep:");
        if starts_with_exec(&v, &dep) {
            let name = string_of_range(&v, dep.len(), v.len());
            assert(v@.subrange(dep@.len() as int, v@.len() as int) == v@.skip(dep@.len() as int));
            return FeatureRef::Dependency { name };
        }
        let weak_sep = chars_of("?/");
        if let Some((dependency, feature)) = split_once_exec(&v, &weak_sep) {
            return FeatureRef::DependencyFeature { dependency, feature, weak: true };
        }
        let sep = chars_of("/");
        if let Some((dependency, feature)) = split_once_exec(&v, &sep) {
            return FeatureRef::DependencyFeature { dependency, feature, weak: false };
        }
        if is_blank(raw) {
            return FeatureRef::Unknown { raw: owned(raw) };
        }
        FeatureRef::Feature { name: owned(raw) }
    }

    /// The local feature name, for plain feature references.
    pub fn local_feature_name(&self) -> (r: Option<&str>)
        ensures
            match r {
                Some(s) => local_name(self@) == Some(s@),
                None => local_name(self@) is None,
            },
    {
        match self {
            FeatureRef::Feature { name } => Some(name.as_str()),
            _ => None,
        }
    }

    /// The reference as written in `Cargo.toml`.
    pub fn raw(&self) -> (r: String)
        ensures
            r@ == ref_text(self@),
    {
        match self {
            FeatureRef::Feature { name } => name.clone(),
            FeatureRef::Dependency { name } => {
                let mut s = owned("dep:");
                s.append(name.as_str());
                s
            },
            FeatureRef::DependencyFeature { dependency, feature, weak } => {
                let mut s = dependency.clone();
                if *weak {
                    s.append("?/");
                } else {
                    s.append("/");
                }
                s.append(feature.as_str());
                s
            },
            FeatureRef::Unknown { raw } => raw.clone(),
        }
    }

    /// A copy of this reference.
    pub fn duplicate(&self) -> (r: Self)
        ensures
            r@ == self@,
    {
        match self {
            FeatureRef::Feature { name } => FeatureRef::Feature { name: name.clone() },
            FeatureRef::Dependency { name } => FeatureRef::Dependency { name: name.clone() },
            FeatureRef::DependencyFeature { dependency, feature, weak } => {
                FeatureRef::DependencyFeature {
                    dependency: dependency.clone(),
                    feature: feature.clone(),
                    weak: *weak,
                }
            },
            FeatureRef::Unknown { raw } => FeatureRef::Unknown { raw: raw.clone() },
        }
    }
}


/// Author-provided metadata for one feature.
#[derive(Debug, Clone, PartialEq, Eq)]
pub struct FeatureMetadata {
    /// Human-facing explanation of the feature.
    pub description: Option<String>,
    /// Whether the feature appears in public-facing output.
    pub public: bool,
    /// Marks the feature as experimental.
    pub unstable: bool,
    /// Marks the feature as deprecated.
    pub deprecated: bool,
    /// Acknowledges an intentional sensitive default.
    pub allow_default: bool,
    /// Extra context appended in Markdown and explain output.
    pub note: Option<String>,
    /// Optional family label such as `runtime` or `tls`.
    pub category: Option<String>,
    /// Release where the feature became available.
    pub since: Option<String>,
    /// Link to feature-specific documentation.
    pub docs: Option<String>,
    /// Link to an issue tracking unstable or planned work.
    pub tracking_issue: Option<String>,
    /// Human-facing prerequisite labels.
    pub requires: Vec<String>,
}

/// The characters of a [`FeatureMetadata`].
pub struct MetadataModel {
    pub description: Option<Seq<char>>,
    pub public: bool,
    pub unstable: bool,
    pub deprecated: bool,
    pub allow_default: bool,
    pub note: Option<Seq<char>>,
    pub category: Option<Seq<char>>,
    pub since: Option<Seq<char>>,
    pub docs: Option<Seq<char>>,
    pub tracking_issue: Option<Seq<char>>,
    pub requires: Seq<Seq<char>>,
}

impl View for FeatureMetadata {
    type V = MetadataModel;

    open spec fn view(&self) -> MetadataModel {
        MetadataModel {
            description: opt_view(self.description),
            public: self.public,
            unstable: self.unstable,
            deprecated: self.deprecated,
            allow_default: self.allow_default,
            note: opt_view(self.note),
            category: opt_view(self.category),
            since: opt_view(self.since),
            docs: opt_view(self.docs),
            tracking_issue: opt_view(self.tracking_issue),
            requires: views(self.requires@),
        }
    }
}

/// Metadata with nothing filled in: public, stable, no description.
pub open spec fn empty_metadata_model() -> MetadataModel {
    MetadataModel {
        description: None,
        public: true,
        unstable: false,
        deprecated: false,
        allow_default: false,
        note: None,
        category: None,
        since: None,
        docs: None,
        tracking_issue: None,
        requires: Seq::empty(),
    }
}

impl Default for FeatureMetadata {
    fn default() -> (m: Self)
        ensures
            m@ == empty_metadata_model(),
    {
        let m = FeatureMetadata {
            description: None,
            public: true,
            unstable: false,
            deprecated: false,
            allow_default: false,
            note: None,
            category: None,
            since: None,
            docs: None,
            tracking_issue: None,
            requires: Vec::new(),
        };
        assert(views(m.requires@) =~= Seq::<Seq<char>>::empty());
        m
    }
}

/// Status labels for display: `deprecated`, `unstable`, `private` in that order, or `stable`.
pub open spec fn status_labels(m: MetadataModel) -> Seq<Seq<char>> {
    let labels = (if m.deprecated { seq!["deprecated"@] } else { Seq::empty() }) + (if m.unstable {
        seq!["unstable"@]
    } else {
        Seq::empty()
    }) + (if !m.public { seq!["private"@] } else { Seq::empty() });
    if labels.len() == 0 {
        seq!["stable"@]
    } else {
        labels
    }
}

/// Character views of a list of string slices.
pub open spec fn str_views(v: Seq<&str>) -> Seq<Seq<char>> {
    v.map_values(|s: &str| s@)
}

impl FeatureMetadata {
    /// Human-readable status labels for display output.
    pub fn status_labels(&self) -> (labels: Vec<&'static str>)
        ensures
            str_views(labels@) == status_labels(self@),
    {
        let mut labels: Vec<&'static str> = Vec::new();
        if self.deprecated {
            labels.push("deprecated");
        }
        if self.unstable {
            labels.push("unstable");
        }
        if !self.public {
            labels.push("private");
        }
        if labels.len() == 0 {
            labels.push("stable");
        }
        assert(str_views(labels@) =~= status_labels(self@));
        labels
    }

    /// A copy of this metadata.
    pub fn duplicate(&self) -> (r: Self)
        ensures
            r@ == self@,
    {
        FeatureMetadata {
            description: copy_opt(&self.description),
            public: self.public,
            unstable: self.unstable,
            deprecated: self.deprecated,
            allow_default: self.allow_default,
            note: copy_opt(&self.note),
            category: copy_opt(&self.category),
            since: copy_opt(&self.since),
            docs: copy_opt(&self.docs),
            tracking_issue: copy_opt(&self.tracking_issue),
            requires: copy_strings(&self.requires),
        }
    }
}

/// One dependency as declared in the manifest.
#[derive(Debug, Clone, PartialEq, Eq)]
pub struct DependencyInfo {
    /// Dependency key used in `Cargo.toml`.
    pub key: String,
    /// Underlying package name.
    pub package: String,
    /// Whether the dependency is optional.
    pub optional: bool,
}

/// The characters of a [`DependencyInfo`].
pub struct DependencyModel {
    pub key: Seq<char>,
    pub package: Seq<char>,
    pub optional: bool,
}

impl View for DependencyInfo {
    type V = DependencyModel;

    open spec fn view(&self) -> DependencyModel {
        DependencyModel { key: self.key@, package: self.package@, optional: self.optional }
    }
}

/// A single Cargo feature and its metadata.
#[derive(Debug, Clone, PartialEq, Eq)]
pub struct Feature {
    /// Feature name.
    pub name: String,
    /// Metadata, defaulted when none was written.
    pub metadata: FeatureMetadata,
    /// Whether an entry exists in the metadata table.
    pub has_metadata: bool,
    /// References activated by this feature.
    pub enables: Vec<FeatureRef>,
    /// Whether `features.default` names this feature.
    pub default_enabled: bool,
}

/// The characters of a [`Feature`].
pub struct FeatureModel {
    pub name: Seq<char>,
    pub metadata: MetadataModel,
    pub has_metadata: bool,
    pub enables: Seq<RefModel>,
    pub default_enabled: bool,
}

impl View for Feature {
    type V = FeatureModel;

    open spec fn view(&self) -> FeatureModel {
        FeatureModel {
            name: self.name@,
            metadata: self.metadata@,
            has_metadata: self.has_metadata,
            enables: ref_views(self.enables@),
            default_enabled: self.default_enabled,
        }
    }
}

/// A logical grouping of related features.
#[derive(Debug, Clone, PartialEq, Eq)]
pub struct FeatureGroup {
    /// Group identifier.
    pub name: String,
    /// Feature names in the group.
    pub members: Vec<String>,
    /// Whether at most one member may be default-enabled.
    pub mutually_exclusive: bool,
    /// Human-facing explanation.
    pub description: Option<String>,
}

/// The characters of a [`FeatureGroup`].
pub struct GroupModel {
    pub name: Seq<char>,
    pub members: Seq<Seq<char>>,
    pub mutually_exclusive: bool,
    pub description: Option<Seq<char>>,
}

impl View for FeatureGroup {
    type V = GroupModel;

    open spec fn view(&self) -> GroupModel {
        GroupModel {
            name: self.name@,
            members: views(self.members@),
            mutually_exclusive: self.mutually_exclusive,
            description: opt_view(self.description),
        }
    }
}

/// A normalized view of Cargo features plus structured feature metadata.
#[derive(Debug, Clone, PartialEq, Eq)]
pub struct FeatureManifest {
    /// Path of the manifest that was read.
    pub manifest_path: String,
    /// Cargo package name when known.
    pub package_name: Option<String>,
    /// Metadata table in use: `feature-manifest` or `feature-docs`.
    pub metadata_table: Option<String>,
    /// How feature metadata is laid out.
    pub metadata_layout: MetadataLayout,
    /// Declared features, ordered by name.
    pub features: Vec<Feature>,
    /// Metadata entries naming no declared feature, ordered by name.
    pub metadata_only: Vec<(String, FeatureMetadata)>,
    /// Entries of `features.default`.
    pub default_members: Vec<FeatureRef>,
    /// Distinct local feature names in `features.default`.
    pub default_features: Vec<String>,
    /// Declared groups.
    pub groups: Vec<FeatureGroup>,
    /// Known dependencies, ordered by key.
    pub dependencies: Vec<DependencyInfo>,
    /// Manifest lint overrides, ordered by code.
    pub lint_overrides: Vec<(String, LintLevel)>,
    /// Manifest lint preset.
    pub lint_preset: Option<LintPreset>,
}

/// The characters of a [`FeatureManifest`].
pub struct ManifestModel {
    pub manifest_path: Seq<char>,
    pub package_name: Option<Seq<char>>,
    pub metadata_table: Option<Seq<char>>,
    pub metadata_layout: MetadataLayout,
    pub features: Seq<FeatureModel>,
    pub metadata_only: Seq<(Seq<char>, MetadataModel)>,
    pub default_members: Seq<RefModel>,
    pub default_features: Seq<Seq<char>>,
    pub groups: Seq<GroupModel>,
    pub dependencies: Seq<DependencyModel>,
    pub lint_overrides: Seq<(Seq<char>, LintLevel)>,
    pub lint_preset: Option<LintPreset>,
}

/// Views of a list of features.
pub open spec fn feature_views(v: Seq<Feature>) -> Seq<FeatureModel> {
    v.map_values(|f: Feature| f@)
}

/// Views of a list of groups.
pub open spec fn group_views(v: Seq<FeatureGroup>) -> Seq<GroupModel> {
    v.map_values(|g: FeatureGroup| g@)
}

/// Views of a list of dependencies.
pub open spec fn dependency_views(v: Seq<DependencyInfo>) -> Seq<DependencyModel> {
    v.map_values(|d: DependencyInfo| d@)
}

/// Views of a list of named metadata entries.
pub open spec fn entry_views(v: Seq<(String, FeatureMetadata)>) -> Seq<(Seq<char>, MetadataModel)> {
    v.map_values(|e: (String, FeatureMetadata)| (e.0@, e.1@))
}

impl View for FeatureManifest {
    type V = ManifestModel;

    open spec fn view(&self) -> ManifestModel {
        ManifestModel {
            manifest_path: self.manifest_path@,
            package_name: opt_view(self.package_name),
            metadata_table: opt_view(self.metadata_table),
            metadata_layout: self.metadata_layout,
            features: feature_views(self.features@),
            metadata_only: entry_views(self.metadata_only@),
            default_members: ref_views(self.default_members@),
            default_features: views(self.default_features@),
            groups: group_views(self.groups@),
            dependencies: dependency_views(self.dependencies@),
            lint_overrides: pairs(self.lint_overrides@),
            lint_preset: self.lint_preset,
        }
    }
}

/// A workspace-aware view of the packages selected for analysis.
#[derive(Debug, Clone, PartialEq, Eq)]
pub struct WorkspaceManifest {
    /// The workspace root manifest.
    pub root_manifest_path: String,
    /// Selected packages.
    pub packages: Vec<FeatureManifest>,
}

/// The characters of a [`WorkspaceManifest`].
pub struct WorkspaceModel {
    pub root_manifest_path: Seq<char>,
    pub packages: Seq<ManifestModel>,
}

/// Views of a list of manifests.
pub open spec fn manifest_views(v: Seq<FeatureManifest>) -> Seq<ManifestModel> {
    v.map_values(|m: FeatureManifest| m@)
}

impl View for WorkspaceManifest {
    type V = WorkspaceModel;

    open spec fn view(&self) -> WorkspaceModel {
        WorkspaceModel {
            root_manifest_path: self.root_manifest_path@,
            packages: manifest_views(self.packages@),
        }
    }
}

/// Names of the packages that have one, in order.
pub open spec fn package_names(ps: Seq<ManifestModel>) -> Seq<Seq<char>>
    decreases ps.len(),
{
    if ps.len() == 0 {
        Seq::empty()
    } else {
        package_names(ps.drop_last()) + match ps.last().package_name {
            Some(name) => seq![name],
            None => Seq::empty(),
        }
    }
}

impl WorkspaceManifest {
    /// Whether exactly one package was selected.
    pub fn is_single_package(&self) -> (b: bool)
        ensures
            b == (self@.packages.len() == 1),
    {
        self.packages.len() == 1
    }

    /// The selected package names in display order.
    pub fn package_names(&self) -> (names: Vec<&str>)
        ensures
            str_views(names@) == package_names(self@.packages),
    {
        let mut names: Vec<&str> = Vec::new();
        let mut i: usize = 0;
        while i < self.packages.len()
            invariant
                i <= self@.packages.len(),
                str_views(names@) == package_names(self@.packages.take(i as int)),
            decreases self@.packages.len() - i,
        {
            assert(self@.packages.take(i as int + 1).drop_last() == self@.packages.take(i as int));
            match &self.packages[i].package_name {
                Some(name) => {
                    names.push(name.as_str());
                },
                None => {},
            }
            assert(str_views(names@) =~= package_names(self@.packages.take(i as int + 1)));
            i = i + 1;
        }
        assert(self@.packages.take(self@.packages.len() as int) == self@.packages);
        names
    }
}

/// The features enabling a name keep the order of the features.
pub proof fn lemma_enabling_sorted(fs: Seq<FeatureModel>, name: Seq<char>)
    ensures
        forall|i: int| 0 <= i < features_enabling(fs, name).len() ==> exists|k: int|
            0 <= k < fs.len() && #[trigger] features_enabling(fs, name)[i] == fs[k],
        names_ascending(fs) ==> names_ascending(features_enabling(fs, name)),
    decreases fs.len(),
{
    if fs.len() > 0 {
        let init = fs.drop_last();
        lemma_enabling_sorted(init, name);
        let prev = features_enabling(init, name);
        let all = features_enabling(fs, name);
        assert forall|i: int| 0 <= i < all.len() implies exists|k: int| 0 <= k < fs.len() && #[trigger] all[i] == fs[k] by {
            if i < prev.len() {
                assert(all[i] == prev[i]);
                let k = choose|k: int| 0 <= k < init.len() && #[trigger] prev[i] == init[k];
                assert(init[k] == fs[k]);
            } else {
                assert(all[i] == fs[fs.len() - 1]);
            }
        }
        if names_ascending(fs) {
            assert(names_ascending(init)) by {
                assert forall|a: int, b: int| 0 <= a < b < init.len() implies crate::order::str_less(#[trigger] init[a].name, #[trigger] init[b].name) by {
                    assert(init[a] == fs[a] && init[b] == fs[b]);
                }
            }
            assert forall|a: int, b: int| 0 <= a < b < all.len() implies crate::order::str_less(#[trigger] all[a].name, #[trigger] all[b].name) by {
                assert(all[a] == prev[a]);
                if b < prev.len() {
                    assert(all[b] == prev[b]);
                } else {
                    let k = choose|k: int| 0 <= k < init.len() && #[trigger] prev[a] == init[k];
                    assert(init[k] == fs[k]);
                    assert(all[b] == fs[fs.len() - 1]);
                }
            }
        }
    }
}

/// Whether dependency keys are strictly ascending, hence distinct.
pub open spec fn dependency_keys_ascending(ds: Seq<DependencyModel>) -> bool {
    forall|i: int, j: int| 0 <= i < j < ds.len() ==> crate::order::str_less(#[trigger] ds[i].key, #[trigger] ds[j].key)
}

/// Whether a manifest's keyed lists hold what maps hold: features, stale
/// metadata entries, dependencies, and lint overrides each in strictly
/// ascending order of their names, hence without repeats.
pub open spec fn manifest_well_formed(m: ManifestModel) -> bool {
    &&& names_ascending(m.features)
    &&& crate::order::keys_sorted(m.metadata_only)
    &&& dependency_keys_ascending(m.dependencies)
    &&& crate::order::keys_sorted(m.lint_overrides)
}

/// Whether feature names are strictly ascending, hence distinct.
pub open spec fn names_ascending(fs: Seq<FeatureModel>) -> bool {
    forall|i: int, j: int| 0 <= i < j < fs.len() ==> crate::order::str_less(#[trigger] fs[i].name, #[trigger] fs[j].name)
}

/// Index of the first feature named `name`.
pub open spec fn feature_index(fs: Seq<FeatureModel>, name: Seq<char>) -> Option<int>
    decreases fs.len(),
{
    if fs.len() == 0 {
        None
    } else if fs[0].name == name {
        Some(0)
    } else {
        match feature_index(fs.drop_first(), name) {
            Some(i) => Some(i + 1),
            None => None,
        }
    }
}

/// A found feature index is in range, names the feature, and is the first such index.
pub proof fn lemma_feature_index(fs: Seq<FeatureModel>, name: Seq<char>)
    ensures
        feature_index(fs, name) matches Some(i) ==> 0 <= i < fs.len() && fs[i].name == name
            && forall|j: int| 0 <= j < i ==> fs[j].name != name,
        feature_index(fs, name) is None ==> forall|j: int| 0 <= j < fs.len() ==> fs[j].name != name,
    decreases fs.len(),
{
    if fs.len() > 0 {
        lemma_feature_index(fs.drop_first(), name);
        if fs[0].name != name {
            assert forall|j: int| 0 < j < fs.len() implies fs[j].name == fs.drop_first()[j - 1].name by {}
        }
    }
}

/// Groups that list `name` among their members, in order.
pub open spec fn groups_with(gs: Seq<GroupModel>, name: Seq<char>) -> Seq<GroupModel>
    decreases gs.len(),
{
    if gs.len() == 0 {
        Seq::empty()
    } else {
        groups_with(gs.drop_last(), name) + if gs.last().members.contains(name) {
            seq![gs.last()]
        } else {
            Seq::empty()
        }
    }
}

/// Features that directly enable the local feature `name`, in order.
pub open spec fn features_enabling(fs: Seq<FeatureModel>, name: Seq<char>) -> Seq<FeatureModel>
    decreases fs.len(),
{
    if fs.len() == 0 {
        Seq::empty()
    } else {
        features_enabling(fs.drop_last(), name) + if fs.last().enables.contains(
            RefModel::Feature(name),
        ) {
            seq![fs.last()]
        } else {
            Seq::empty()
        }
    }
}

/// Whether a list of strings contains `s`.
pub fn contains_string(v: &Vec<String>, s: &str) -> (b: bool)
    ensures
        b == views(v@).contains(s@),
{
    let mut i: usize = 0;
    while i < v.len()
        invariant
            i <= v@.len(),
            forall|j: int| 0 <= j < i ==> v@[j]@ != s@,
        decreases v@.len() - i,
    {
        if str_eq(v[i].as_str(), s) {
            assert(views(v@)[i as int] == s@);
            return true;
        }
        i = i + 1;
    }
    assert forall|j: int| 0 <= j < views(v@).len() implies views(v@)[j] != s@ by {
        assert(views(v@)[j] == v@[j]@);
    }
    false
}

/// Whether a reference names the local feature `name`.
pub fn names_local_feature(r: &FeatureRef, name: &str) -> (b: bool)
    ensures
        b == (r@ == RefModel::Feature(name@)),
{
    match r {
        FeatureRef::Feature { name: n } => str_eq(n.as_str(), name),
        _ => false,
    }
}

/// Whether a list of references contains the local feature `name`.
pub fn enables_local(refs: &Vec<FeatureRef>, name: &str) -> (b: bool)
    ensures
        b == ref_views(refs@).contains(RefModel::Feature(name@)),
{
    let mut i: usize = 0;
    while i < refs.len()
        invariant
            i <= refs@.len(),
            forall|j: int| 0 <= j < i ==> refs@[j]@ != RefModel::Feature(name@),
        decreases refs@.len() - i,
    {
        if names_local_feature(&refs[i], name) {
            assert(ref_views(refs@)[i as int] == RefModel::Feature(name@));
            return true;
        }
        i = i + 1;
    }
    assert forall|j: int| 0 <= j < ref_views(refs@).len() implies ref_views(refs@)[j]
        != RefModel::Feature(name@) by {
        assert(ref_views(refs@)[j] == refs@[j]@);
    }
    false
}

impl FeatureManifest {
    /// The features in stable display order.
    pub fn ordered_features(&self) -> (r: Vec<&Feature>)
        ensures
            r@.len() == self.features@.len(),
            forall|i: int| 0 <= i < r@.len() ==> *r@[i] == self.features@[i],
            names_ascending(self@.features) ==> forall|i: int, j: int|
                0 <= i < j < r@.len() ==> crate::order::str_less(#[trigger] r@[i].name@, #[trigger] r@[j].name@),
    {
        let mut r: Vec<&Feature> = Vec::new();
        let mut i: usize = 0;
        while i < self.features.len()
            invariant
                i <= self.features@.len(),
                r@.len() == i,
                forall|j: int| 0 <= j < i ==> *r@[j] == self.features@[j],
            decreases self.features@.len() - i,
        {
            r.push(&self.features[i]);
            i = i + 1;
        }
        proof {
            if names_ascending(self@.features) {
                assert forall|a: int, b: int| 0 <= a < b < r@.len() implies crate::order::str_less(#[trigger] r@[a].name@, #[trigger] r@[b].name@) by {
                    assert(self@.features[a].name == self.features@[a].name@);
                    assert(self@.features[b].name == self.features@[b].name@);
                }
            }
        }
        r
    }

    /// The feature named `name`, if it is declared.
    pub fn feature(&self, name: &str) -> (r: Option<&Feature>)
        ensures
            match feature_index(self@.features, name@) {
                Some(i) => r matches Some(f) && *f == self.features@[i],
                None => r is None,
            },
    {
        proof {
            lemma_feature_index(self@.features, name@);
        }
        let mut i: usize = 0;
        while i < self.features.len()
            invariant
                i <= self.features@.len(),
                forall|j: int| 0 <= j < i ==> self@.features[j].name != name@,
                feature_index(self@.features, name@) matches Some(k) ==> i <= k,
            decreases self.features@.len() - i,
        {
            proof {
                lemma_feature_index(self@.features, name@);
            }
            if str_eq(self.features[i].name.as_str(), name) {
                assert(self@.features[i as int].name == name@);
                return Some(&self.features[i]);
            }
            i = i + 1;
        }
        proof {
            lemma_feature_index(self@.features, name@);
        }
        None
    }

    /// The groups that contain the named feature.
    pub fn groups_for_feature(&self, feature_name: &str) -> (r: Vec<&FeatureGroup>)
        ensures
            group_views(r@.map_values(|g: &FeatureGroup| *g)) == groups_with(
                self@.groups,
                feature_name@,
            ),
    {
        let mut r: Vec<&FeatureGroup> = Vec::new();
        let mut i: usize = 0;
        while i < self.groups.len()
            invariant
                i <= self.groups@.len(),
                group_views(r@.map_values(|g: &FeatureGroup| *g)) == groups_with(
                    self@.groups.take(i as int),
                    feature_name@,
                ),
            decreases self.groups@.len() - i,
        {
            let ghost before = r@;
            assert(self@.groups.take(i as int + 1).drop_last() == self@.groups.take(i as int));
            assert(self@.groups.take(i as int + 1).last() == self.groups@[i as int]@);
            if contains_string(&self.groups[i].members, feature_name) {
                r.push(&self.groups[i]);
            }
            assert(group_views(r@.map_values(|g: &FeatureGroup| *g)) =~= groups_with(
                self@.groups.take(i as int + 1),
                feature_name@,
            ));
            i = i + 1;
        }
        assert(self@.groups.take(self@.groups.len() as int) == self@.groups);
        r
    }

    /// The features that directly reference the named feature.
    pub fn reverse_dependencies(&self, feature_name: &str) -> (r: Vec<&Feature>)
        ensures
            feature_views(r@.map_values(|f: &Feature| *f)) == features_enabling(
                self@.features,
                feature_name@,
            ),
            names_ascending(self@.features) ==> names_ascending(
                feature_views(r@.map_values(|f: &Feature| *f)),
            ),
    {
        proof {
            lemma_enabling_sorted(self@.features, feature_name@);
        }
        let mut r: Vec<&Feature> = Vec::new();
        let mut i: usize = 0;
        while i < self.features.len()
            invariant
                i <= self.features@.len(),
                feature_views(r@.map_values(|f: &Feature| *f)) == features_enabling(
                    self@.features.take(i as int),
                    feature_name@,
                ),
            decreases self.features@.len() - i,
        {
            assert(self@.features.take(i as int + 1).drop_last() == self@.features.take(i as int));
            assert(self@.features.take(i as int + 1).last() == self.features@[i as int]@);
            if enables_local(&self.features[i].enables, feature_name) {
                r.push(&self.features[i]);
            }
            assert(feature_views(r@.map_values(|f: &Feature| *f)) =~= features_enabling(
                self@.features.take(i as int + 1),
                feature_name@,
            ));
            i = i + 1;
        }
        assert(self@.features.take(self@.features.len() as int) == self@.features);
        r
    }
}

} // verus!
