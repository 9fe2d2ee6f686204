//! The plain-text explanation of one feature.

use vstd::prelude::*;

use crate::model::{
    contains_string, feature_index, features_enabling, groups_with, Feature, FeatureManifest,
    FeatureModel, GroupModel, ManifestModel, WorkspaceManifest,
};
use crate::render::markdown::description_or_default;
use crate::render::shared::{
    reference_summary, reference_summary_text, status_summary, status_text, visibility_label,
    visibility_text, yes_no, yes_no_text,
};
use crate::text::{concat2, concat3, join, join_strings, owned, views};

verus! {

/// A list of names joined with `, `, or `fallback` when there are none.
pub open spec fn names_or(names: Seq<Seq<char>>, fallback: Seq<char>) -> Seq<char> {
    if names.len() == 0 {
        fallback
    } else {
        join(names, ", "@)
    }
}

/// An optional labelled line.
pub open spec fn optional_line(label: Seq<char>, value: Option<Seq<char>>) -> Seq<Seq<char>> {
    match value {
        Some(v) => seq![label + v],
        None => Seq::empty(),
    }
}

/// The first lines of an explanation: the feature and its package.
pub open spec fn explanation_head(m: ManifestModel, f: FeatureModel) -> Seq<Seq<char>> {
    seq!["Feature: `"@ + f.name + "`"@] + optional_line("Package: "@, m.package_name)
}

/// The fixed lines of an explanation.
pub open spec fn explanation_core(m: ManifestModel, f: FeatureModel) -> Seq<Seq<char>> {
    seq![
        "Description: "@ + description_or_default(f.metadata),
        "Default enabled: "@ + yes_no_text(f.default_enabled),
        "Visibility: "@ + visibility_text(f.metadata),
        "Status: "@ + status_text(f.metadata),
        "Metadata table: "@ + match m.metadata_table {
            Some(t) => t,
            None => "package.metadata.feature-manifest"@,
        },
        "Enables: "@ + reference_summary_text(f.enables),
        if m.default_features.contains(f.name) {
            "Included in default feature set: yes"@
        } else {
            "Included in default feature set: no"@
        },
        "Groups: "@ + names_or(
            groups_with(m.groups, f.name).map_values(|g: GroupModel| g.name),
            "none"@,
        ),
        "Required by: "@ + names_or(
            features_enabling(m.features, f.name).map_values(|x: FeatureModel| x.name),
            "no feature references"@,
        ),
    ]
}

/// The optional closing lines of an explanation.
pub open spec fn explanation_tail(f: FeatureModel) -> Seq<Seq<char>> {
    optional_line("Note: "@, f.metadata.note) + optional_line("Category: "@, f.metadata.category)
        + optional_line("Since: "@, f.metadata.since) + optional_line("Docs: "@, f.metadata.docs)
        + optional_line("Tracking issue: "@, f.metadata.tracking_issue) + (if f.metadata.requires.len()
        > 0 {
        seq!["Requires: "@ + join(f.metadata.requires, ", "@)]
    } else {
        Seq::empty()
    })
}

/// The lines explaining feature `f` of package `m`.
pub open spec fn explanation_lines(m: ManifestModel, f: FeatureModel) -> Seq<Seq<char>> {
    explanation_head(m, f) + explanation_core(m, f) + explanation_tail(f)
}

/// The explanation of one feature.
pub open spec fn explanation_text(m: ManifestModel, f: FeatureModel) -> Seq<char> {
    join(explanation_lines(m, f), "\n"@)
}

/// The packages declaring a shown feature named `name`, with that feature.
pub open spec fn matching_packages(ps: Seq<ManifestModel>, name: Seq<char>, include_private: bool) -> Seq<(ManifestModel, FeatureModel)>
    decreases ps.len(),
{
    if ps.len() == 0 {
        Seq::empty()
    } else {
        matching_packages(ps.drop_last(), name, include_private) + match feature_index(
            ps.last().features,
            name,
        ) {
            Some(i) => if include_private || ps.last().features[i].metadata.public {
                seq![(ps.last(), ps.last().features[i])]
            } else {
                Seq::empty()
            },
            None => Seq::empty(),
        }
    }
}

/// The sections for the matches: the bare explanation for a single package,
/// else a heading, a blank line, and the explanation per package, separated by
/// blank lines.
pub open spec fn explain_sections(ms: Seq<(ManifestModel, FeatureModel)>, single: bool) -> Seq<Seq<char>>
    decreases ms.len(),
{
    if ms.len() == 0 {
        Seq::empty()
    } else if single {
        explain_sections(ms.drop_last(), single) + seq![explanation_text(ms.last().0, ms.last().1)]
    } else {
        explain_sections(ms.drop_last(), single) + (if ms.len() > 1 {
            seq![Seq::<char>::empty()]
        } else {
            Seq::empty()
        }) + seq![
            "## "@ + crate::render::mermaid::package_label(ms.last().0),
            Seq::empty(),
            explanation_text(ms.last().0, ms.last().1),
        ]
    }
}

/// Why an explanation could not be rendered.
#[derive(Debug, Clone, PartialEq, Eq)]
pub enum ExplainError {
    /// No selected package declares a shown feature of that name.
    FeatureNotFound(String),
}

impl ExplainError {
    /// The error as one line of text.
    pub fn message(&self) -> (r: String)
        ensures
            match self {
                ExplainError::FeatureNotFound(name) => r@ == "feature `"@ + name@
                    + "` was not found in the selected package set"@,
            },
    {
        match self {
            ExplainError::FeatureNotFound(name) => concat3(
                "feature `",
                name.as_str(),
                "` was not found in the selected package set",
            ),
        }
    }
}

/// Names of a list of groups.
fn group_names(gs: &Vec<&crate::model::FeatureGroup>) -> (r: Vec<String>)
    ensures
        views(r@) == gs@.map_values(|g: &crate::model::FeatureGroup| g@.name),
{
    let mut r: Vec<String> = Vec::new();
    let mut i: usize = 0;
    while i < gs.len()
        invariant
            i <= gs@.len(),
            views(r@) == gs@.map_values(|g: &crate::model::FeatureGroup| g@.name).take(i as int),
        decreases gs@.len() - i,
    {
        let ghost before = views(r@);
        let nm = gs[i].name.clone();
        r.push(nm);
        assert(views(r@) =~= before.push(gs@[i as int]@.name));
        assert(views(r@) =~= gs@.map_values(|g: &crate::model::FeatureGroup| g@.name).take(
            i as int + 1,
        ));
        i = i + 1;
    }
    assert(gs@.map_values(|g: &crate::model::FeatureGroup| g@.name).take(gs@.len() as int)
        =~= gs@.map_values(|g: &crate::model::FeatureGroup| g@.name));
    r
}

/// Names of a list of features.
fn feature_names(fs: &Vec<&Feature>) -> (r: Vec<String>)
    ensures
        views(r@) == fs@.map_values(|f: &Feature| f@.name),
{
    let mut r: Vec<String> = Vec::new();
    let mut i: usize = 0;
    while i < fs.len()
        invariant
            i <= fs@.len(),
            views(r@) == fs@.map_values(|f: &Feature| f@.name).take(i as int),
        decreases fs@.len() - i,
    {
        let ghost before = views(r@);
        let nm = fs[i].name.clone();
        r.push(nm);
        assert(views(r@) =~= before.push(fs@[i as int]@.name));
        assert(views(r@) =~= fs@.map_values(|f: &Feature| f@.name).take(i as int + 1));
        i = i + 1;
    }
    assert(fs@.map_values(|f: &Feature| f@.name).take(fs@.len() as int) =~= fs@.map_values(
        |f: &Feature| f@.name,
    ));
    r
}

/// Executable form of [`names_or`].
fn names_or_text(names: &Vec<String>, fallback: &str) -> (r: String)
    ensures
        r@ == names_or(views(names@), fallback@),
{
    if names.len() == 0 {
        owned(fallback)
    } else {
        join_strings(names, ", ")
    }
}

/// Pushes `label + value` when there is a value.
fn push_optional(lines: &mut Vec<String>, label: &str, value: &Option<String>)
    ensures
        views(final(lines)@) == views(old(lines)@) + optional_line(
            label@,
            crate::model::opt_view(*value),
        ),
{
    let ghost before = views(lines@);
    match value {
        Some(v) => {
            lines.push(concat2(label, v.as_str()));
            assert(views(lines@) =~= before.push(label@ + v@));
        },
        None => {
            assert(views(lines@) =~= before);
        },
    }
}

/// Pushes the fixed lines of an explanation.
fn push_core_lines(lines: &mut Vec<String>, m: &FeatureManifest, f: &Feature)
    ensures
        views(final(lines)@) == views(old(lines)@) + explanation_core(m@, f@),
{
    let gs = m.groups_for_feature(f.name.as_str());
    let groups = group_names(&gs);
    assert(views(groups@) =~= groups_with(m@.groups, f@.name).map_values(|g: GroupModel| g.name)) by {
        assert(crate::model::group_views(gs@.map_values(|g: &crate::model::FeatureGroup| *g)).len()
            == gs@.len());
        assert forall|j: int| 0 <= j < gs@.len() implies views(groups@)[j] == groups_with(
            m@.groups,
            f@.name,
        )[j].name by {
            assert(crate::model::group_views(gs@.map_values(|g: &crate::model::FeatureGroup| *g))[j]
                == gs@[j]@);
        }
    }
    let rs = m.reverse_dependencies(f.name.as_str());
    let reverse = feature_names(&rs);
    assert(views(reverse@) =~= features_enabling(m@.features, f@.name).map_values(|x: FeatureModel| x.name)) by {
        assert(crate::model::feature_views(rs@.map_values(|x: &Feature| *x)).len() == rs@.len());
        assert forall|j: int| 0 <= j < rs@.len() implies views(reverse@)[j] == features_enabling(
            m@.features,
            f@.name,
        )[j].name by {
            assert(crate::model::feature_views(rs@.map_values(|x: &Feature| *x))[j] == rs@[j]@);
        }
    }
    let description: &str = match &f.metadata.description {
        Some(d) => d.as_str(),
        None => "No description provided.",
    };
    let table: &str = match &m.metadata_table {
        Some(t) => t.as_str(),
        None => "package.metadata.feature-manifest",
    };
    let included: &str = if contains_string(&m.default_features, f.name.as_str()) {
        "Included in default feature set: yes"
    } else {
        "Included in default feature set: no"
    };
    let mut core: Vec<String> = Vec::new();
    core.push(concat2("Description: ", description));
    core.push(concat2("Default enabled: ", yes_no(f.default_enabled)));
    core.push(concat2("Visibility: ", visibility_label(&f.metadata)));
    core.push(concat2("Status: ", status_summary(&f.metadata).as_str()));
    core.push(concat2("Metadata table: ", table));
    core.push(concat2("Enables: ", reference_summary(&f.enables).as_str()));
    core.push(owned(included));
    core.push(concat2("Groups: ", names_or_text(&groups, "none").as_str()));
    core.push(concat2("Required by: ", names_or_text(&reverse, "no feature references").as_str()));
    assert(views(core@) =~= explanation_core(m@, f@));
    lines.append(&mut core);
}

/// Pushes the optional closing lines of an explanation.
fn push_tail_lines(lines: &mut Vec<String>, f: &Feature)
    ensures
        views(final(lines)@) == views(old(lines)@) + explanation_tail(f@),
{
    let ghost start = views(lines@);
    push_optional(lines, "Note: ", &f.metadata.note);
    push_optional(lines, "Category: ", &f.metadata.category);
    push_optional(lines, "Since: ", &f.metadata.since);
    push_optional(lines, "Docs: ", &f.metadata.docs);
    push_optional(lines, "Tracking issue: ", &f.metadata.tracking_issue);
    let ghost before = views(lines@);
    if f.metadata.requires.len() > 0 {
        let line = concat2("Requires: ", join_strings(&f.metadata.requires, ", ").as_str());
        lines.push(line);
        assert(views(lines@) =~= before.push("Requires: "@ + join(f@.metadata.requires, ", "@)));
    }
    assert(views(lines@) =~= start + explanation_tail(f@));
}

/// Renders the explanation of one feature of a package.
fn render_feature_explanation(m: &FeatureManifest, f: &Feature) -> (r: String)
    ensures
        r@ == explanation_text(m@, f@),
{
    let mut lines: Vec<String> = Vec::new();
    lines.push(concat3("Feature: `", f.name.as_str(), "`"));
    push_optional(&mut lines, "Package: ", &m.package_name);
    assert(views(lines@) =~= explanation_head(m@, f@));
    push_core_lines(&mut lines, m, f);
    push_tail_lines(&mut lines, f);
    join_strings(&lines, "\n")
}

/// Renders a human-readable explanation for a named feature.
pub fn render_explain(workspace: &WorkspaceManifest, feature_name: &str, include_private: bool) -> (r: Result<String, ExplainError>)
    ensures
        matching_packages(workspace@.packages, feature_name@, include_private).len() == 0 ==> (r
            matches Err(ExplainError::FeatureNotFound(n)) && n@ == feature_name@),
        matching_packages(workspace@.packages, feature_name@, include_private).len() > 0 ==> (r
            matches Ok(text) && text@ == join(
            explain_sections(
                matching_packages(workspace@.packages, feature_name@, include_private),
                workspace@.packages.len() == 1,
            ),
            "\n"@,
        )),
{
    let single = workspace.is_single_package();
    let ghost ps = workspace@.packages;
    let mut sections: Vec<String> = Vec::new();
    let mut count: usize = 0;
    let mut k: usize = 0;
    while k < workspace.packages.len()
        invariant
            k <= workspace.packages@.len(),
            ps == workspace@.packages,
            single == (ps.len() == 1),
            count == matching_packages(ps.take(k as int), feature_name@, include_private).len(),
            count <= k,
            views(sections@) == explain_sections(
                matching_packages(ps.take(k as int), feature_name@, include_private),
                single,
            ),
        decreases workspace.packages@.len() - k,
    {
        assert(ps.take(k as int + 1).drop_last() == ps.take(k as int));
        assert(ps.take(k as int + 1).last() == workspace.packages@[k as int]@);
        let package = &workspace.packages[k];
        let ghost before = views(sections@);
        let ghost prev = matching_packages(ps.take(k as int), feature_name@, include_private);
        proof {
            crate::model::lemma_feature_index(package@.features, feature_name@);
        }
        match package.feature(feature_name) {
            Some(f) => {
                if include_private || f.metadata.public {
                    let ghost i = feature_index(package@.features, feature_name@)->0;
                    assert(package@.features[i] == f@);
                    let ghost next = prev.push((package@, f@));
                    assert(matching_packages(ps.take(k as int + 1), feature_name@, include_private) =~= next);
                    assert(next.drop_last() == prev);
                    if single {
                        sections.push(render_feature_explanation(package, f));
                        assert(views(sections@) =~= before.push(explanation_text(package@, f@)));
                    } else {
                        if count > 0 {
                            sections.push(String::new());
                        }
                        let ghost mid = views(sections@);
                        assert(mid =~= before + (if next.len() > 1 {
                            seq![Seq::<char>::empty()]
                        } else {
                            Seq::empty()
                        }));
                        let label: &str = match &package.package_name {
                            Some(n) => n.as_str(),
                            None => "unknown-package",
                        };
                        sections.push(concat2("## ", label));
                        sections.push(String::new());
                        sections.push(render_feature_explanation(package, f));
                        assert(views(sections@) =~= mid + seq![
                            "## "@ + crate::render::mermaid::package_label(package@),
                            Seq::empty(),
                            explanation_text(package@, f@),
                        ]);
                    }
                    count = count + 1;
                } else {
                    assert(matching_packages(ps.take(k as int + 1), feature_name@, include_private) =~= prev);
                }
            },
            None => {
                assert(matching_packages(ps.take(k as int + 1), feature_name@, include_private) =~= prev);
            },
        }
        k = k + 1;
    }
    assert(ps.take(workspace.packages@.len() as int) == ps);
    if count == 0 {
        return Err(ExplainError::FeatureNotFound(owned(feature_name)));
    }
    Ok(join_strings(&sections, "\n"))
}


/// The explanation of a feature holds the line `Default enabled: yes` when
/// `features.default` enables the feature, and `Default enabled: no`
/// otherwise, right after the feature and package lines and its description;
/// then its visibility; and, further on, whether the `default` entry lists it.
pub proof fn law_default_line(m: ManifestModel, f: FeatureModel)
    ensures
        explanation_lines(m, f)[explanation_head(m, f).len() + 1int] == "Default enabled: "@ + (if f.default_enabled {
            "yes"@
        } else {
            "no"@
        }),
        explanation_lines(m, f).contains("Default enabled: "@ + (if f.default_enabled {
            "yes"@
        } else {
            "no"@
        })),
        explanation_lines(m, f)[explanation_head(m, f).len() + 2int] == "Visibility: "@ + (if f.metadata.public {
            "public"@
        } else {
            "private"@
        }),
        explanation_lines(m, f)[explanation_head(m, f).len() + 6int] == "Included in default feature set: "@ + (
        if m.default_features.contains(f.name) {
            "yes"@
        } else {
            "no"@
        }),
{
    let i: int = explanation_head(m, f).len() + 1int;
    assert(explanation_lines(m, f)[i] == explanation_core(m, f)[1]);
    assert(explanation_lines(m, f)[i + 1] == explanation_core(m, f)[2]);
    assert(explanation_lines(m, f)[i + 5] == explanation_core(m, f)[6]);
    reveal_strlit("Included in default feature set: yes");
    reveal_strlit("Included in default feature set: no");
    reveal_strlit("Included in default feature set: ");
    reveal_strlit("yes");
    reveal_strlit("no");
    assert("Included in default feature set: yes"@ =~= "Included in default feature set: "@ + "yes"@);
    assert("Included in default feature set: no"@ =~= "Included in default feature set: "@ + "no"@);
}

} // verus!
