//! Choosing packages from a workspace's metadata, and command-line arguments.

use vstd::prelude::*;

use crate::model::{DependencyInfo, DependencyModel, FeatureManifest, ManifestModel};
use crate::order::str_less;
use crate::text::{join, join_strings, owned, str_eq, views};

verus! {

/// Selects which package set to load from a Cargo workspace.
#[derive(Debug, Clone, PartialEq, Eq)]
pub enum PackageSelection {
    /// The root package, or the only package.
    Default,
    /// Every workspace member.
    Workspace,
    /// The member with this name.
    Package(String),
}

/// A package as `cargo metadata` describes it, reduced to what selection reads.
#[derive(Debug, Clone, PartialEq, Eq)]
pub struct PackageEntry {
    /// Package id.
    pub id: String,
    /// Package name.
    pub name: String,
}

/// The characters of a [`PackageEntry`].
pub struct EntryModel {
    pub id: Seq<char>,
    pub name: Seq<char>,
}

impl View for PackageEntry {
    type V = EntryModel;

    open spec fn view(&self) -> EntryModel {
        EntryModel { id: self.id@, name: self.name@ }
    }
}

/// Views of package entries.
pub open spec fn entry_models(v: Seq<PackageEntry>) -> Seq<EntryModel> {
    v.map_values(|e: PackageEntry| e@)
}

/// Why no package set could be chosen.
#[derive(Debug, Clone, PartialEq, Eq)]
pub enum SelectionError {
    /// `--workspace` and `--package` were both given.
    Conflict,
    /// No member has the name; holds the name and the members' names.
    UnknownPackage(String, String),
    /// The manifest is a workspace of several packages without a root package;
    /// holds the members' names.
    Ambiguous(String),
}

impl SelectionError {
    /// The error as one line of text.
    pub fn message(&self) -> (r: String)
        ensures
            r@ == match self {
                SelectionError::Conflict => "`--workspace` and `--package` cannot be used together"@,
                SelectionError::UnknownPackage(name, names) => "package `"@ + name@
                    + "` was not found in the workspace; available packages: "@ + names@,
                SelectionError::Ambiguous(names) => "the selected manifest resolves to a workspace with multiple packages; use `--workspace` or `--package <name>`. Available packages: "@
                    + names@,
            },
    {
        match self {
            SelectionError::Conflict => owned("`--workspace` and `--package` cannot be used together"),
            SelectionError::UnknownPackage(name, names) => {
                let mut r = crate::text::concat3(
                    "package `",
                    name.as_str(),
                    "` was not found in the workspace; available packages: ",
                );
                r.append(names.as_str());
                r
            },
            SelectionError::Ambiguous(names) => crate::text::concat2(
                "the selected manifest resolves to a workspace with multiple packages; use `--workspace` or `--package <name>`. Available packages: ",
                names.as_str(),
            ),
        }
    }
}

/// The selection the `--workspace` and `--package` flags ask for.
pub fn selection_from_flags(workspace: bool, package: &Option<String>) -> (r: Result<PackageSelection, SelectionError>)
    ensures
        workspace && package is Some ==> r == Err::<PackageSelection, SelectionError>(SelectionError::Conflict),
        workspace && package is None ==> r == Ok::<PackageSelection, SelectionError>(PackageSelection::Workspace),
        !workspace ==> match package {
            Some(name) => r matches Ok(PackageSelection::Package(n)) && n@ == name@,
            None => r == Ok::<PackageSelection, SelectionError>(PackageSelection::Default),
        },
{
    if workspace && package.is_some() {
        return Err(SelectionError::Conflict);
    }
    if workspace {
        return Ok(PackageSelection::Workspace);
    }
    match package {
        Some(name) => Ok(PackageSelection::Package(name.clone())),
        None => Ok(PackageSelection::Default),
    }
}

/// Whether the second argument names this tool as a Cargo subcommand.
pub open spec fn names_tool(a: Seq<char>) -> bool {
    a == "feature-manifest"@ || a == "feature_manifest"@ || a == "fm"@
}

/// Whether the second argument is the tool's own name.
pub open spec fn drops_tool_name(args: Seq<Option<String>>) -> bool {
    args.len() > 1 && match args[1] {
        Some(a) => names_tool(a@),
        None => false,
    }
}

/// The arguments without a Cargo subcommand name in second place; an argument that is not valid UTF-8 is given as `None`.
pub fn normalize_args(args: Vec<Option<String>>) -> (r: Vec<Option<String>>)
    ensures
        drops_tool_name(args@) ==> r@ == args@.remove(1),
        !drops_tool_name(args@) ==> r@ == args@,
{
    let mut args = args;
    let drop = args.len() > 1 && match &args[1] {
        Some(a) => str_eq(a.as_str(), "feature-manifest") || str_eq(a.as_str(), "feature_manifest")
            || str_eq(a.as_str(), "fm"),
        None => false,
    };
    if drop {
        args.remove(1);
    }
    args
}

/// The workspace members found among the packages, in member order.
pub open spec fn member_entries(members: Seq<Seq<char>>, packages: Seq<EntryModel>) -> Seq<EntryModel>
    decreases members.len(),
{
    if members.len() == 0 {
        Seq::empty()
    } else {
        member_entries(members.drop_last(), packages) + match first_with_id(packages, members.last()) {
            Some(i) => seq![packages[i]],
            None => Seq::empty(),
        }
    }
}

/// Index of the first package with an id.
pub open spec fn first_with_id(ps: Seq<EntryModel>, id: Seq<char>) -> Option<int>
    decreases ps.len(),
{
    if ps.len() == 0 {
        None
    } else {
        match first_with_id(ps.drop_last(), id) {
            Some(i) => Some(i),
            None => if ps.last().id == id {
                Some(ps.len() - 1)
            } else {
                None
            },
        }
    }
}

/// The members' names joined with `, `.
pub open spec fn member_names(ms: Seq<EntryModel>) -> Seq<char> {
    join(ms.map_values(|e: EntryModel| e.name), ", "@)
}

/// The ids of the members with a name, in order.
pub open spec fn ids_named(ms: Seq<EntryModel>, name: Seq<char>) -> Seq<Seq<char>>
    decreases ms.len(),
{
    if ms.len() == 0 {
        Seq::empty()
    } else {
        ids_named(ms.drop_last(), name) + if ms.last().name == name {
            seq![ms.last().id]
        } else {
            Seq::empty()
        }
    }
}

/// The ids a selection loads, from the members found.
pub open spec fn selected_ids(
    ms: Seq<EntryModel>,
    root: Option<Seq<char>>,
    selection: PackageSelection,
) -> Result<Seq<Seq<char>>, ()> {
    match selection {
        PackageSelection::Workspace => Ok(ms.map_values(|e: EntryModel| e.id)),
        PackageSelection::Package(name) => {
            let hits = ids_named(ms, name@);
            if hits.len() == 0 {
                Err(())
            } else {
                Ok(hits)
            }
        },
        PackageSelection::Default => match root {
            Some(id) if exists|i: int| 0 <= i < ms.len() && #[trigger] ms[i].id == id => Ok(seq![id]),
            _ => if ms.len() == 1 {
                Ok(seq![ms[0].id])
            } else {
                Err(())
            },
        },
    }
}

/// Executable form of [`member_entries`].
fn find_members(member_ids: &Vec<String>, packages: &Vec<PackageEntry>) -> (r: Vec<PackageEntry>)
    ensures
        entry_models(r@) == member_entries(views(member_ids@), entry_models(packages@)),
{
    let ghost ids = views(member_ids@);
    let ghost ps = entry_models(packages@);
    let mut r: Vec<PackageEntry> = Vec::new();
    let mut i: usize = 0;
    while i < member_ids.len()
        invariant
            i <= member_ids@.len(),
            ids == views(member_ids@),
            ps == entry_models(packages@),
            entry_models(r@) == member_entries(ids.take(i as int), ps),
        decreases member_ids@.len() - i,
    {
        assert(ids.take(i as int + 1).drop_last() == ids.take(i as int));
        assert(ids.take(i as int + 1).last() == member_ids@[i as int]@);
        let id = member_ids[i].as_str();
        let mut found: Option<usize> = None;
        let mut j: usize = 0;
        while j < packages.len()
            invariant
                j <= packages@.len(),
                ps == entry_models(packages@),
                match found {
                    Some(k) => first_with_id(ps.take(j as int), id@) == Some(k as int),
                    None => first_with_id(ps.take(j as int), id@) is None,
                },
            decreases packages@.len() - j,
        {
            assert(ps.take(j as int + 1).drop_last() == ps.take(j as int));
            assert(ps.take(j as int + 1).last() == packages@[j as int]@);
            if found.is_none() && str_eq(packages[j].id.as_str(), id) {
                found = Some(j);
            }
            j = j + 1;
        }
        assert(ps.take(packages@.len() as int) == ps);
        let ghost before = entry_models(r@);
        match found {
            Some(k) => {
                proof {
                    lemma_first_with_id(ps, id@);
                }
                let e = PackageEntry { id: packages[k].id.clone(), name: packages[k].name.clone() };
                r.push(e);
                assert(entry_models(r@) =~= before.push(ps[k as int]));
            },
            None => {},
        }
        i = i + 1;
    }
    assert(ids.take(member_ids@.len() as int) == ids);
    r
}

/// A found index is in range.
pub proof fn lemma_first_with_id(ps: Seq<EntryModel>, id: Seq<char>)
    ensures
        first_with_id(ps, id) matches Some(i) ==> 0 <= i < ps.len() && ps[i].id == id,
    decreases ps.len(),
{
    if ps.len() > 0 {
        lemma_first_with_id(ps.drop_last(), id);
    }
}

/// The members' names joined with `, `.
fn available_package_names(ms: &Vec<PackageEntry>) -> (r: String)
    ensures
        r@ == member_names(entry_models(ms@)),
{
    let mut names: Vec<String> = Vec::new();
    let mut i: usize = 0;
    while i < ms.len()
        invariant
            i <= ms@.len(),
            views(names@) == entry_models(ms@).map_values(|e: EntryModel| e.name).take(i as int),
        decreases ms@.len() - i,
    {
        let ghost before = views(names@);
        names.push(ms[i].name.clone());
        assert(views(names@) =~= before.push(ms@[i as int].name@));
        assert(views(names@) =~= entry_models(ms@).map_values(|e: EntryModel| e.name).take(i as int + 1));
        i = i + 1;
    }
    assert(entry_models(ms@).map_values(|e: EntryModel| e.name).take(ms@.len() as int) =~= entry_models(ms@).map_values(
        |e: EntryModel| e.name,
    ));
    join_strings(&names, ", ")
}

/// The selection's view.
pub open spec fn selection_view(s: PackageSelection) -> PackageSelection {
    s
}

/// Chooses the package ids to load: every member, the
/// members with a name, or the root package (else the only member).
pub fn select_package_ids(
    member_ids: &Vec<String>,
    packages: &Vec<PackageEntry>,
    root_package: Option<&str>,
    selection: &PackageSelection,
) -> (r: Result<Vec<String>, SelectionError>)
    ensures
        ({
            let ms = member_entries(views(member_ids@), entry_models(packages@));
            let root = match root_package {
                Some(id) => Some(id@),
                None => None,
            };
            match selected_ids(ms, root, *selection) {
                Ok(ids) => r matches Ok(v) && views(v@) == ids,
                Err(_) => match selection {
                    PackageSelection::Package(name) => r matches Err(SelectionError::UnknownPackage(n, names)) && n@ == name@ && names@ == member_names(ms),
                    _ => r matches Err(SelectionError::Ambiguous(names)) && names@ == member_names(ms),
                },
            }
        }),
{
    let ms = find_members(member_ids, packages);
    let ghost msv = entry_models(ms@);
    match selection {
        PackageSelection::Workspace => {
            let mut ids: Vec<String> = Vec::new();
            let mut i: usize = 0;
            while i < ms.len()
                invariant
                    i <= ms@.len(),
                    msv == entry_models(ms@),
                    views(ids@) == msv.map_values(|e: EntryModel| e.id).take(i as int),
                decreases ms@.len() - i,
            {
                let ghost before = views(ids@);
                ids.push(ms[i].id.clone());
                assert(views(ids@) =~= before.push(ms@[i as int].id@));
                assert(views(ids@) =~= msv.map_values(|e: EntryModel| e.id).take(i as int + 1));
                i = i + 1;
            }
            assert(msv.map_values(|e: EntryModel| e.id).take(ms@.len() as int) =~= msv.map_values(
                |e: EntryModel| e.id,
            ));
            Ok(ids)
        },
        PackageSelection::Package(name) => {
            let mut ids: Vec<String> = Vec::new();
            let mut i: usize = 0;
            while i < ms.len()
                invariant
                    i <= ms@.len(),
                    msv == entry_models(ms@),
                    views(ids@) == ids_named(msv.take(i as int), name@),
                decreases ms@.len() - i,
            {
                assert(msv.take(i as int + 1).drop_last() == msv.take(i as int));
                assert(msv.take(i as int + 1).last() == ms@[i as int]@);
                let ghost before = views(ids@);
                if str_eq(ms[i].name.as_str(), name.as_str()) {
                    ids.push(ms[i].id.clone());
                    assert(views(ids@) =~= before.push(ms@[i as int].id@));
                }
                i = i + 1;
            }
            assert(msv.take(ms@.len() as int) == msv);
            if ids.len() == 0 {
                return Err(SelectionError::UnknownPackage(name.clone(), available_package_names(&ms)));
            }
            Ok(ids)
        },
        PackageSelection::Default => {
            match root_package {
                Some(root) => {
                    let mut i: usize = 0;
                    while i < ms.len()
                        invariant
                            i <= ms@.len(),
                            msv == entry_models(ms@),
                            msv == member_entries(views(member_ids@), entry_models(packages@)),
                            root_package == Some(root),
                            *selection == PackageSelection::Default,
                            forall|j: int| 0 <= j < i ==> msv[j].id != root@,
                        decreases ms@.len() - i,
                    {
                        if str_eq(ms[i].id.as_str(), root) {
                            assert(msv[i as int].id == root@);
                            let mut ids: Vec<String> = Vec::new();
                            ids.push(owned(root));
                            assert(views(ids@) =~= seq![root@]);
                            return Ok(ids);
                        }
                        i = i + 1;
                    }
                },
                None => {},
            }
            if ms.len() == 1 {
                let mut ids: Vec<String> = Vec::new();
                ids.push(ms[0].id.clone());
                assert(views(ids@) =~= seq![msv[0].id]);
                return Ok(ids);
            }
            Err(SelectionError::Ambiguous(available_package_names(&ms)))
        },
    }
}

/// A dependency as `cargo metadata` lists it.
#[derive(Debug, Clone, PartialEq, Eq)]
pub struct CargoDependency {
    /// The package depended on.
    pub name: String,
    /// The key it is renamed to, if any.
    pub rename: Option<String>,
    /// Whether it is optional.
    pub optional: bool,
}

/// The dependency a listed dependency declares, under its key.
pub open spec fn listed_dependency(d: CargoDependency) -> DependencyModel {
    DependencyModel {
        key: match d.rename {
            Some(r) => r@,
            None => d.name@,
        },
        package: d.name@,
        optional: d.optional,
    }
}

/// The dependency map of listed dependencies, later ones replacing earlier ones
/// with the same key.
pub open spec fn listed_dependencies(ds: Seq<CargoDependency>) -> Seq<DependencyModel>
    decreases ds.len(),
{
    if ds.len() == 0 {
        Seq::empty()
    } else {
        crate::parse::dependency_insert(listed_dependencies(ds.drop_last()), listed_dependency(ds.last()))
    }
}

/// Listed dependencies keep their keys strictly ascending.
pub proof fn lemma_listed_sorted(ds: Seq<CargoDependency>)
    ensures
        crate::model::dependency_keys_ascending(listed_dependencies(ds)),
    decreases ds.len(),
{
    if ds.len() > 0 {
        lemma_listed_sorted(ds.drop_last());
        crate::parse::lemma_dependency_insert_sorted(listed_dependencies(ds.drop_last()), listed_dependency(ds.last()));
    }
}

/// The dependencies of a package by key.
pub fn collect_dependency_info(deps: &Vec<CargoDependency>) -> (r: Vec<DependencyInfo>)
    ensures
        crate::model::dependency_views(r@) == listed_dependencies(deps@),
        crate::model::dependency_keys_ascending(crate::model::dependency_views(r@)),
{
    proof {
        lemma_listed_sorted(deps@);
    }
    let mut r: Vec<DependencyInfo> = Vec::new();
    assert(crate::model::dependency_views(r@) =~= Seq::<DependencyModel>::empty());
    let mut i: usize = 0;
    while i < deps.len()
        invariant
            i <= deps@.len(),
            crate::model::dependency_views(r@) == listed_dependencies(deps@.take(i as int)),
        decreases deps@.len() - i,
    {
        assert(deps@.take(i as int + 1).drop_last() == deps@.take(i as int));
        assert(deps@.take(i as int + 1).last() == deps@[i as int]);
        let d = &deps[i];
        let key = match &d.rename {
            Some(k) => k.clone(),
            None => d.name.clone(),
        };
        crate::parse::insert_dependency(&mut r, DependencyInfo { key, package: d.name.clone(), optional: d.optional });
        i = i + 1;
    }
    assert(deps@.take(deps@.len() as int) == deps@);
    r
}

/// The order of a path component: a root, then `.`, then `..`, then names
/// (`std::path::Component`'s order).
pub open spec fn component_rank(c: Seq<char>) -> int {
    if c == seq!['/'] {
        0
    } else if c == seq!['.'] {
        1
    } else if c == seq!['.', '.'] {
        2
    } else {
        3
    }
}

/// Whether one path component sorts before another.
pub open spec fn component_less(a: Seq<char>, b: Seq<char>) -> bool {
    component_rank(a) < component_rank(b) || (component_rank(a) == 3 && component_rank(b) == 3
        && str_less(a, b))
}

/// Whether one path sorts before another, component by component (`Path::cmp`).
pub open spec fn components_less(a: Seq<Seq<char>>, b: Seq<Seq<char>>) -> bool
    decreases a.len(),
{
    if a.len() == 0 {
        b.len() > 0
    } else if b.len() == 0 {
        false
    } else if a[0] != b[0] {
        component_less(a[0], b[0])
    } else {
        components_less(a.drop_first(), b.drop_first())
    }
}

/// Whether one package sorts before another: by name (unnamed first), then by
/// manifest path.
pub open spec fn manifest_less(a: ManifestModel, b: ManifestModel) -> bool {
    match (a.package_name, b.package_name) {
        (None, Some(_)) => true,
        (Some(x), Some(y)) => str_less(x, y) || (x == y && components_less(
            crate::paths::components(a.manifest_path),
            crate::paths::components(b.manifest_path),
        )),
        (None, None) => components_less(
            crate::paths::components(a.manifest_path),
            crate::paths::components(b.manifest_path),
        ),
        (Some(_), None) => false,
    }
}

/// Position after every package that does not sort after `x`.
pub open spec fn manifest_insert_pos(list: Seq<ManifestModel>, x: ManifestModel) -> int
    decreases list.len(),
{
    if list.len() == 0 {
        0
    } else if manifest_less(x, list[0]) {
        0
    } else {
        manifest_insert_pos(list.drop_first(), x) + 1
    }
}

/// Packages in a stable sort by name, then manifest path (`packages.sort_by`).
pub open spec fn sorted_manifests(ps: Seq<ManifestModel>) -> Seq<ManifestModel>
    decreases ps.len(),
{
    if ps.len() == 0 {
        Seq::empty()
    } else {
        let rest = sorted_manifests(ps.drop_last());
        rest.insert(manifest_insert_pos(rest, ps.last()), ps.last())
    }
}

/// The insertion position is within bounds.
pub proof fn lemma_manifest_insert_pos(list: Seq<ManifestModel>, x: ManifestModel)
    ensures
        0 <= manifest_insert_pos(list, x) <= list.len(),
    decreases list.len(),
{
    if list.len() > 0 {
        lemma_manifest_insert_pos(list.drop_first(), x);
    }
}

/// Executable form of [`components_less`].
fn components_less_exec(a: &Vec<String>, b: &Vec<String>) -> (r: bool)
    ensures
        r == components_less(views(a@), views(b@)),
{
    proof {
        crate::paths::lemma_separators();
        reveal_strlit("..");
        assert(".."@ =~= seq!['.', '.']);
    }
    let mut i: usize = 0;
    assert(views(a@).skip(0) == views(a@));
    assert(views(b@).skip(0) == views(b@));
    while i < a.len() && i < b.len() && str_eq(a[i].as_str(), b[i].as_str())
        invariant
            i <= a@.len(),
            i <= b@.len(),
            components_less(views(a@), views(b@)) == components_less(
                views(a@).skip(i as int),
                views(b@).skip(i as int),
            ),
        decreases a@.len() - i,
    {
        assert(views(a@).skip(i as int).drop_first() == views(a@).skip(i as int + 1));
        assert(views(b@).skip(i as int).drop_first() == views(b@).skip(i as int + 1));
        i = i + 1;
    }
    if i == a.len() {
        assert(views(a@).skip(i as int).len() == 0);
        return i < b.len();
    }
    if i == b.len() {
        return false;
    }
    assert(views(a@).skip(i as int)[0] == a@[i as int]@);
    assert(views(b@).skip(i as int)[0] == b@[i as int]@);
    let x = a[i].as_str();
    let y = b[i].as_str();
    let rx: u8 = if str_eq(x, "/") {
        0
    } else if str_eq(x, ".") {
        1
    } else if str_eq(x, "..") {
        2
    } else {
        3
    };
    let ry: u8 = if str_eq(y, "/") {
        0
    } else if str_eq(y, ".") {
        1
    } else if str_eq(y, "..") {
        2
    } else {
        3
    };
    assert(rx == component_rank(x@));
    assert(ry == component_rank(y@));
    rx < ry || (rx == 3 && ry == 3 && crate::order::str_less_exec(x, y))
}

/// Executable form of [`manifest_less`].
fn manifest_less_exec(a: &FeatureManifest, b: &FeatureManifest) -> (r: bool)
    ensures
        r == manifest_less(a@, b@),
{
    let by_path = components_less_exec(
        &crate::paths::path_components(a.manifest_path.as_str()),
        &crate::paths::path_components(b.manifest_path.as_str()),
    );
    match (&a.package_name, &b.package_name) {
        (None, Some(_)) => true,
        (Some(x), Some(y)) => crate::order::str_less_exec(x.as_str(), y.as_str()) || (str_eq(
            x.as_str(),
            y.as_str(),
        ) && by_path),
        (None, None) => by_path,
        (Some(_), None) => false,
    }
}

/// Sorts packages by name, then manifest path, keeping the order of equal ones.
pub fn sort_packages(packages: Vec<FeatureManifest>) -> (r: Vec<FeatureManifest>)
    ensures
        crate::model::manifest_views(r@) == sorted_manifests(crate::model::manifest_views(packages@)),
{
    let ghost all = crate::model::manifest_views(packages@);
    let mut rest = packages;
    let mut sorted: Vec<FeatureManifest> = Vec::new();
    let mut k: usize = 0;
    assert(all.len() == rest.len());
    assert(crate::model::manifest_views(sorted@) =~= Seq::<ManifestModel>::empty());
    assert(all.skip(0) == all);
    while rest.len() > 0
        invariant
            k <= all.len(),
            all.len() <= usize::MAX,
            crate::model::manifest_views(rest@) == all.skip(k as int),
            crate::model::manifest_views(sorted@) == sorted_manifests(all.take(k as int)),
        decreases rest@.len(),
    {
        let ghost rv = crate::model::manifest_views(rest@);
        let x = rest.remove(0);
        assert(crate::model::manifest_views(rest@) =~= rv.drop_first());
        assert(rv[0] == x@);
        assert(all.skip(k as int)[0] == all[k as int]);
        assert(x@ == all[k as int]);
        assert(all.take(k as int + 1).drop_last() == all.take(k as int));
        assert(all.take(k as int + 1).last() == x@);
        let ghost sv = crate::model::manifest_views(sorted@);
        proof {
            lemma_manifest_insert_pos(sv, x@);
        }
        let mut p: usize = 0;
        assert(sv.skip(0) == sv);
        while p < sorted.len() && !manifest_less_exec(&x, &sorted[p])
            invariant
                p <= sorted@.len(),
                sv == crate::model::manifest_views(sorted@),
                manifest_insert_pos(sv, x@) == manifest_insert_pos(sv.skip(p as int), x@) + p,
            decreases sorted@.len() - p,
        {
            assert(sv.skip(p as int)[0] == sorted@[p as int]@);
            assert(sv.skip(p as int).drop_first() == sv.skip(p as int + 1));
            p = p + 1;
        }
        if p < sorted.len() {
            assert(sv.skip(p as int)[0] == sorted@[p as int]@);
        } else {
            assert(sv.skip(p as int).len() == 0);
        }
        let ghost xv = x@;
        sorted.insert(p, x);
        assert(crate::model::manifest_views(sorted@) =~= sv.insert(p as int, xv));
        assert(all.skip(k as int).drop_first() == all.skip(k as int + 1));
        k = k + 1;
    }
    assert(all.skip(k as int).len() == 0);
    assert(all.take(k as int) == all);
    sorted
}

} // verus!
