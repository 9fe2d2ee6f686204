//! The versioned machine-readable form of a workspace, before serialization.

use vstd::prelude::*;

use crate::model::{
    copy_opt, copy_strings, group_views, groups_with, opt_view, ref_text, ref_views,
    DependencyInfo, DependencyModel, Feature, FeatureGroup, FeatureManifest, FeatureMetadata,
    FeatureModel, FeatureRef, GroupModel, LintLevel, LintPreset, ManifestModel, MetadataLayout,
    MetadataModel, RefModel, WorkspaceManifest,
};
use crate::paths::{portable_path, portable_relative_path};
use crate::text::views;

verus! {

/// The version of the JSON schema.
pub const JSON_SCHEMA_VERSION: u32 = 1;

/// The whole JSON document.
#[derive(Debug)]
pub struct JsonReport {
    pub schema_version: u32,
    pub packages: Vec<JsonPackage>,
}

/// One package.
#[derive(Debug)]
pub struct JsonPackage {
    pub package_name: Option<String>,
    pub manifest_path: String,
    pub metadata_table: Option<String>,
    pub metadata_layout: MetadataLayout,
    pub default_feature_set: Vec<String>,
    pub dependencies: Vec<JsonDependency>,
    pub lint_overrides: Vec<JsonLintOverride>,
    pub lint_preset: Option<LintPreset>,
    pub features: Vec<JsonFeature>,
    pub groups: Vec<JsonGroup>,
}

/// One feature.
#[derive(Debug)]
pub struct JsonFeature {
    pub name: String,
    pub default_enabled: bool,
    pub has_metadata: bool,
    pub enables: Vec<JsonFeatureRef>,
    pub groups: Vec<String>,
    pub metadata: FeatureMetadata,
}

/// One reference, tagged by kind.
#[derive(Debug)]
pub enum JsonFeatureRef {
    Feature { name: String },
    Dependency { name: String },
    DependencyFeature { dependency: String, feature: String, weak: bool },
    Unknown { raw: String },
}

/// One group.
#[derive(Debug)]
pub struct JsonGroup {
    pub name: String,
    pub description: Option<String>,
    pub mutually_exclusive: bool,
    pub members: Vec<String>,
}

/// One dependency.
#[derive(Debug)]
pub struct JsonDependency {
    pub key: String,
    pub package: String,
    pub optional: bool,
}

/// One lint override.
#[derive(Debug)]
pub struct JsonLintOverride {
    pub code: String,
    pub level: LintLevel,
}

impl View for JsonFeatureRef {
    type V = RefModel;

    open spec fn view(&self) -> RefModel {
        match self {
            JsonFeatureRef::Feature { name } => RefModel::Feature(name@),
            JsonFeatureRef::Dependency { name } => RefModel::Dependency(name@),
            JsonFeatureRef::DependencyFeature { dependency, feature, weak } => RefModel::DependencyFeature(
                dependency@,
                feature@,
                *weak,
            ),
            JsonFeatureRef::Unknown { raw } => RefModel::Unknown(raw@),
        }
    }
}

impl View for JsonGroup {
    type V = GroupModel;

    open spec fn view(&self) -> GroupModel {
        GroupModel {
            name: self.name@,
            members: views(self.members@),
            mutually_exclusive: self.mutually_exclusive,
            description: opt_view(self.description),
        }
    }
}

impl View for JsonDependency {
    type V = DependencyModel;

    open spec fn view(&self) -> DependencyModel {
        DependencyModel { key: self.key@, package: self.package@, optional: self.optional }
    }
}

/// The characters of a [`JsonFeature`].
pub struct JsonFeatureModel {
    pub name: Seq<char>,
    pub default_enabled: bool,
    pub has_metadata: bool,
    pub enables: Seq<RefModel>,
    pub groups: Seq<Seq<char>>,
    pub metadata: MetadataModel,
}

impl View for JsonFeature {
    type V = JsonFeatureModel;

    open spec fn view(&self) -> JsonFeatureModel {
        JsonFeatureModel {
            name: self.name@,
            default_enabled: self.default_enabled,
            has_metadata: self.has_metadata,
            enables: self.enables@.map_values(|r: JsonFeatureRef| r@),
            groups: views(self.groups@),
            metadata: self.metadata@,
        }
    }
}

/// The characters of a [`JsonPackage`].
pub struct JsonPackageModel {
    pub package_name: Option<Seq<char>>,
    pub manifest_path: Seq<char>,
    pub metadata_table: Option<Seq<char>>,
    pub metadata_layout: MetadataLayout,
    pub default_feature_set: Seq<Seq<char>>,
    pub dependencies: Seq<DependencyModel>,
    pub lint_overrides: Seq<(Seq<char>, LintLevel)>,
    pub lint_preset: Option<LintPreset>,
    pub features: Seq<JsonFeatureModel>,
    pub groups: Seq<GroupModel>,
}

impl View for JsonPackage {
    type V = JsonPackageModel;

    open spec fn view(&self) -> JsonPackageModel {
        JsonPackageModel {
            package_name: opt_view(self.package_name),
            manifest_path: self.manifest_path@,
            metadata_table: opt_view(self.metadata_table),
            metadata_layout: self.metadata_layout,
            default_feature_set: views(self.default_feature_set@),
            dependencies: self.dependencies@.map_values(|d: JsonDependency| d@),
            lint_overrides: self.lint_overrides@.map_values(|o: JsonLintOverride| (o.code@, o.level)),
            lint_preset: self.lint_preset,
            features: self.features@.map_values(|f: JsonFeature| f@),
            groups: self.groups@.map_values(|g: JsonGroup| g@),
        }
    }
}

/// The JSON form of a feature.
pub open spec fn json_feature(p: ManifestModel, f: FeatureModel) -> JsonFeatureModel {
    JsonFeatureModel {
        name: f.name,
        default_enabled: f.default_enabled,
        has_metadata: f.has_metadata,
        enables: f.enables,
        groups: groups_with(p.groups, f.name).map_values(|g: GroupModel| g.name),
        metadata: f.metadata,
    }
}

/// The JSON form of a package, its manifest path relative to the workspace root.
pub open spec fn json_package(root_manifest: Seq<char>, p: ManifestModel) -> JsonPackageModel {
    JsonPackageModel {
        package_name: p.package_name,
        manifest_path: portable_path(root_manifest, p.manifest_path),
        metadata_table: p.metadata_table,
        metadata_layout: p.metadata_layout,
        default_feature_set: p.default_members.map_values(|r: RefModel| ref_text(r)),
        dependencies: p.dependencies,
        lint_overrides: p.lint_overrides,
        lint_preset: p.lint_preset,
        features: p.features.map_values(|f: FeatureModel| json_feature(p, f)),
        groups: p.groups,
    }
}

/// The JSON form of a dependency.
pub fn dependency_to_json(d: &DependencyInfo) -> (r: JsonDependency)
    ensures
        r@ == d@,
{
    JsonDependency { key: d.key.clone(), package: d.package.clone(), optional: d.optional }
}

/// The JSON form of a reference.
pub fn feature_ref_to_json(r: &FeatureRef) -> (j: JsonFeatureRef)
    ensures
        j@ == r@,
{
    match r {
        FeatureRef::Feature { name } => JsonFeatureRef::Feature { name: name.clone() },
        FeatureRef::Dependency { name } => JsonFeatureRef::Dependency { name: name.clone() },
        FeatureRef::DependencyFeature { dependency, feature, weak } => JsonFeatureRef::DependencyFeature {
            dependency: dependency.clone(),
            feature: feature.clone(),
            weak: *weak,
        },
        FeatureRef::Unknown { raw } => JsonFeatureRef::Unknown { raw: raw.clone() },
    }
}

/// The JSON form of a group.
pub fn group_to_json(g: &FeatureGroup) -> (r: JsonGroup)
    ensures
        r@ == g@,
{
    JsonGroup {
        name: g.name.clone(),
        description: copy_opt(&g.description),
        mutually_exclusive: g.mutually_exclusive,
        members: copy_strings(&g.members),
    }
}

/// The JSON form of a feature of package `p`.
fn feature_to_json(p: &FeatureManifest, f: &Feature) -> (r: JsonFeature)
    ensures
        r@ == json_feature(p@, f@),
{
    let mut enables: Vec<JsonFeatureRef> = Vec::new();
    let mut i: usize = 0;
    while i < f.enables.len()
        invariant
            i <= f.enables@.len(),
            enables@.map_values(|r: JsonFeatureRef| r@) == ref_views(f.enables@).take(i as int),
        decreases f.enables@.len() - i,
    {
        let ghost before = enables@.map_values(|r: JsonFeatureRef| r@);
        let j = feature_ref_to_json(&f.enables[i]);
        enables.push(j);
        assert(enables@.map_values(|r: JsonFeatureRef| r@) =~= before.push(f.enables@[i as int]@));
        assert(enables@.map_values(|r: JsonFeatureRef| r@) =~= ref_views(f.enables@).take(i as int + 1));
        i = i + 1;
    }
    assert(ref_views(f.enables@).take(f.enables@.len() as int) == ref_views(f.enables@));
    let gs = p.groups_for_feature(f.name.as_str());
    let mut groups: Vec<String> = Vec::new();
    let ghost target = groups_with(p@.groups, f@.name).map_values(|g: GroupModel| g.name);
    let mut k: usize = 0;
    while k < gs.len()
        invariant
            k <= gs@.len(),
            group_views(gs@.map_values(|g: &FeatureGroup| *g)) == groups_with(p@.groups, f@.name),
            target == groups_with(p@.groups, f@.name).map_values(|g: GroupModel| g.name),
            views(groups@) == target.take(k as int),
        decreases gs@.len() - k,
    {
        let ghost before = views(groups@);
        assert(group_views(gs@.map_values(|g: &FeatureGroup| *g))[k as int] == gs@[k as int]@);
        let name = gs[k].name.clone();
        groups.push(name);
        assert(views(groups@) =~= before.push(gs@[k as int]@.name));
        assert(views(groups@) =~= target.take(k as int + 1));
        k = k + 1;
    }
    assert(target.take(gs@.len() as int) =~= target);
    JsonFeature {
        name: f.name.clone(),
        default_enabled: f.default_enabled,
        has_metadata: f.has_metadata,
        enables,
        groups,
        metadata: f.metadata.duplicate(),
    }
}

/// The JSON form of a package.
pub fn package_to_json(root_manifest: &str, p: &FeatureManifest) -> (r: JsonPackage)
    ensures
        r@ == json_package(root_manifest@, p@),
{
    let mut defaults: Vec<String> = Vec::new();
    let mut i: usize = 0;
    while i < p.default_members.len()
        invariant
            i <= p.default_members@.len(),
            views(defaults@) == p@.default_members.map_values(|r: RefModel| ref_text(r)).take(i as int),
        decreases p.default_members@.len() - i,
    {
        let ghost before = views(defaults@);
        let raw = p.default_members[i].raw();
        defaults.push(raw);
        assert(views(defaults@) =~= before.push(ref_text(p.default_members@[i as int]@)));
        assert(views(defaults@) =~= p@.default_members.map_values(|r: RefModel| ref_text(r)).take(
            i as int + 1,
        ));
        i = i + 1;
    }
    assert(p@.default_members.map_values(|r: RefModel| ref_text(r)).take(p.default_members@.len() as int)
        =~= p@.default_members.map_values(|r: RefModel| ref_text(r)));
    let mut dependencies: Vec<JsonDependency> = Vec::new();
    let mut i: usize = 0;
    while i < p.dependencies.len()
        invariant
            i <= p.dependencies@.len(),
            dependencies@.map_values(|d: JsonDependency| d@) == p@.dependencies.take(i as int),
        decreases p.dependencies@.len() - i,
    {
        let ghost before = dependencies@.map_values(|d: JsonDependency| d@);
        dependencies.push(dependency_to_json(&p.dependencies[i]));
        assert(dependencies@.map_values(|d: JsonDependency| d@) =~= before.push(p.dependencies@[i as int]@));
        assert(dependencies@.map_values(|d: JsonDependency| d@) =~= p@.dependencies.take(i as int + 1));
        i = i + 1;
    }
    assert(p@.dependencies.take(p.dependencies@.len() as int) == p@.dependencies);
    let mut lints: Vec<JsonLintOverride> = Vec::new();
    let mut i: usize = 0;
    while i < p.lint_overrides.len()
        invariant
            i <= p.lint_overrides@.len(),
            lints@.map_values(|o: JsonLintOverride| (o.code@, o.level)) == p@.lint_overrides.take(i as int),
        decreases p.lint_overrides@.len() - i,
    {
        let ghost before = lints@.map_values(|o: JsonLintOverride| (o.code@, o.level));
        lints.push(JsonLintOverride { code: p.lint_overrides[i].0.clone(), level: p.lint_overrides[i].1 });
        assert(lints@.map_values(|o: JsonLintOverride| (o.code@, o.level)) =~= before.push(
            (p.lint_overrides@[i as int].0@, p.lint_overrides@[i as int].1),
        ));
        assert(lints@.map_values(|o: JsonLintOverride| (o.code@, o.level)) =~= p@.lint_overrides.take(
            i as int + 1,
        ));
        i = i + 1;
    }
    assert(p@.lint_overrides.take(p.lint_overrides@.len() as int) == p@.lint_overrides);
    let mut features: Vec<JsonFeature> = Vec::new();
    let ghost fs = p@.features.map_values(|f: FeatureModel| json_feature(p@, f));
    let mut i: usize = 0;
    while i < p.features.len()
        invariant
            i <= p.features@.len(),
            fs == p@.features.map_values(|f: FeatureModel| json_feature(p@, f)),
            features@.map_values(|f: JsonFeature| f@) == fs.take(i as int),
        decreases p.features@.len() - i,
    {
        let ghost before = features@.map_values(|f: JsonFeature| f@);
        let jf = feature_to_json(p, &p.features[i]);
        features.push(jf);
        assert(features@.map_values(|f: JsonFeature| f@) =~= before.push(json_feature(p@, p.features@[i as int]@)));
        assert(features@.map_values(|f: JsonFeature| f@) =~= fs.take(i as int + 1));
        i = i + 1;
    }
    assert(fs.take(p.features@.len() as int) == fs);
    let mut groups: Vec<JsonGroup> = Vec::new();
    let mut i: usize = 0;
    while i < p.groups.len()
        invariant
            i <= p.groups@.len(),
            groups@.map_values(|g: JsonGroup| g@) == p@.groups.take(i as int),
        decreases p.groups@.len() - i,
    {
        let ghost before = groups@.map_values(|g: JsonGroup| g@);
        groups.push(group_to_json(&p.groups[i]));
        assert(groups@.map_values(|g: JsonGroup| g@) =~= before.push(p.groups@[i as int]@));
        assert(groups@.map_values(|g: JsonGroup| g@) =~= p@.groups.take(i as int + 1));
        i = i + 1;
    }
    assert(p@.groups.take(p.groups@.len() as int) == p@.groups);
    JsonPackage {
        package_name: copy_opt(&p.package_name),
        manifest_path: portable_relative_path(root_manifest, p.manifest_path.as_str()),
        metadata_table: copy_opt(&p.metadata_table),
        metadata_layout: p.metadata_layout,
        default_feature_set: defaults,
        dependencies,
        lint_overrides: lints,
        lint_preset: p.lint_preset,
        features,
        groups,
    }
}

/// The JSON document of a workspace.
pub fn workspace_to_json(ws: &WorkspaceManifest) -> (r: JsonReport)
    ensures
        r.schema_version == JSON_SCHEMA_VERSION,
        r.packages@.map_values(|p: JsonPackage| p@) == ws@.packages.map_values(
            |p: ManifestModel| json_package(ws@.root_manifest_path, p),
        ),
{
    let ghost target = ws@.packages.map_values(|p: ManifestModel| json_package(ws@.root_manifest_path, p));
    let mut packages: Vec<JsonPackage> = Vec::new();
    let mut i: usize = 0;
    while i < ws.packages.len()
        invariant
            i <= ws.packages@.len(),
            target == ws@.packages.map_values(|p: ManifestModel| json_package(ws@.root_manifest_path, p)),
            packages@.map_values(|p: JsonPackage| p@) == target.take(i as int),
        decreases ws.packages@.len() - i,
    {
        let ghost before = packages@.map_values(|p: JsonPackage| p@);
        packages.push(package_to_json(ws.root_manifest_path.as_str(), &ws.packages[i]));
        assert(packages@.map_values(|p: JsonPackage| p@) =~= before.push(
            json_package(ws@.root_manifest_path, ws.packages@[i as int]@),
        ));
        assert(packages@.map_values(|p: JsonPackage| p@) =~= target.take(i as int + 1));
        i = i + 1;
    }
    assert(target.take(ws.packages@.len() as int) == target);
    JsonReport { schema_version: JSON_SCHEMA_VERSION, packages }
}

} // verus!
