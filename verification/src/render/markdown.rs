//! The Markdown feature table.

use vstd::prelude::*;

use crate::model::{
    feature_views, package_names, ref_views, str_views, Feature, FeatureGroup, FeatureManifest,
    FeatureModel, GroupModel, ManifestModel, MetadataModel, RefModel, WorkspaceManifest,
};
use crate::render::shared::{
    escape_markdown, escape_markdown_cell, escape_markdown_inline, quoted_reference,
    reference_summary, reference_summary_text, status_summary, status_text, visibility_label,
    visibility_text, yes_no, yes_no_text,
};
use crate::text::{concat3, decimal, decimal_string, join, join_strings, owned, views};

verus! {

/// `level` hash marks.
pub open spec fn hashes(level: nat) -> Seq<char> {
    Seq::new(level, |i: int| '#')
}

/// The title line of a package section.
pub open spec fn title_text(m: ManifestModel, level: nat) -> Seq<char> {
    match m.package_name {
        Some(name) => hashes(level) + " "@ + name + " feature manifest"@,
        None => hashes(level) + " Feature manifest"@,
    }
}

/// The line listing `features.default`.
pub open spec fn default_summary_text(m: ManifestModel) -> Seq<char> {
    if m.default_members.len() == 0 {
        "Default feature set: _none_"@
    } else {
        "Default feature set: "@ + join(
            m.default_members.map_values(|r: RefModel| quoted_reference(r)),
            ", "@,
        )
    }
}

/// The description, or a stock sentence when there is none.
pub open spec fn description_or_default(md: MetadataModel) -> Seq<char> {
    match md.description {
        Some(d) => d,
        None => "No description provided."@,
    }
}

/// The optional details that follow a description: note, since, docs,
/// tracking issue, and requirements.
pub open spec fn description_details(md: MetadataModel) -> Seq<Seq<char>> {
    (match md.note {
        Some(n) => seq!["Note: "@ + n],
        None => Seq::empty(),
    }) + (match md.since {
        Some(s) => seq!["Since: "@ + s],
        None => Seq::empty(),
    }) + (match md.docs {
        Some(d) => seq!["Docs: "@ + d],
        None => Seq::empty(),
    }) + (match md.tracking_issue {
        Some(t) => seq!["Tracking issue: "@ + t],
        None => Seq::empty(),
    }) + (if md.requires.len() > 0 {
        seq!["Requires: "@ + join(md.requires, ", "@)]
    } else {
        Seq::empty()
    })
}

/// The description cell: the description followed by its details.
pub open spec fn description_text(md: MetadataModel) -> Seq<char> {
    if description_details(md).len() == 0 {
        description_or_default(md)
    } else {
        description_or_default(md) + " "@ + join(description_details(md), " "@)
    }
}

/// One table row.
pub open spec fn feature_row(f: FeatureModel) -> Seq<char> {
    "| `"@ + escape_markdown(f.name) + "` | "@ + yes_no_text(f.default_enabled) + " | "@
        + visibility_text(f.metadata) + " | "@ + escape_markdown(status_text(f.metadata)) + " | "@
        + escape_markdown(
        match f.metadata.category {
            Some(c) => c,
            None => "—"@,
        },
    ) + " | "@ + escape_markdown(reference_summary_text(f.enables)) + " | "@ + escape_markdown(
        description_text(f.metadata),
    ) + " |"@
}

/// Whether a feature is shown.
pub open spec fn shown(f: FeatureModel, include_private: bool) -> bool {
    include_private || f.metadata.public
}

/// The rows of the shown features, in order.
pub open spec fn feature_rows(fs: Seq<FeatureModel>, include_private: bool) -> Seq<Seq<char>>
    decreases fs.len(),
{
    if fs.len() == 0 {
        Seq::empty()
    } else {
        feature_rows(fs.drop_last(), include_private) + if shown(fs.last(), include_private) {
            seq![feature_row(fs.last())]
        } else {
            Seq::empty()
        }
    }
}

/// The number of hidden features.
pub open spec fn hidden_count(fs: Seq<FeatureModel>, include_private: bool) -> nat
    decreases fs.len(),
{
    if fs.len() == 0 {
        0
    } else {
        hidden_count(fs.drop_last(), include_private) + if shown(fs.last(), include_private) {
            0nat
        } else {
            1nat
        }
    }
}

/// A group member between backticks, escaped.
pub open spec fn quoted_member(x: Seq<char>) -> Seq<char> {
    "`"@ + escape_markdown(x) + "`"@
}

/// The bullet line of a group.
pub open spec fn group_line(g: GroupModel) -> Seq<char> {
    "- `"@ + escape_markdown(g.name) + "`: "@ + escape_markdown(
        match g.description {
            Some(d) => d,
            None => "No description provided."@,
        },
    ) + (if g.mutually_exclusive {
        " Mutually exclusive."@
    } else {
        Seq::empty()
    }) + " Members: "@ + join(g.members.map_values(|x: Seq<char>| quoted_member(x)), ", "@) + "."@
}

/// The lines of one package section.
pub open spec fn package_lines(m: ManifestModel, include_private: bool, level: nat) -> Seq<Seq<char>> {
    seq![
        title_text(m, level),
        Seq::empty(),
        default_summary_text(m),
        Seq::empty(),
        "| Feature | Default | Visibility | Status | Category | Enables | Description |"@,
        "| --- | --- | --- | --- | --- | --- | --- |"@,
    ] + feature_rows(m.features, include_private) + (if hidden_count(m.features, include_private)
        > 0 && !include_private {
        seq![
            Seq::empty(),
            "_"@ + decimal(hidden_count(m.features, include_private))
                + " internal/private feature(s) hidden. Use `--include-private` to render all._"@,
        ]
    } else {
        Seq::empty()
    }) + (if m.groups.len() > 0 {
        seq![Seq::empty(), hashes(level) + "# Groups"@, Seq::empty()] + m.groups.map_values(
            |g: GroupModel| group_line(g),
        )
    } else {
        Seq::empty()
    })
}

/// The Markdown of one package section.
pub open spec fn package_markdown(m: ManifestModel, include_private: bool, level: nat) -> Seq<char> {
    join(package_lines(m, include_private, level), "\n"@)
}

/// The package sections of a workspace, separated by blank lines.
pub open spec fn package_sections(ps: Seq<ManifestModel>, include_private: bool) -> Seq<Seq<char>>
    decreases ps.len(),
{
    if ps.len() == 0 {
        Seq::empty()
    } else {
        package_sections(ps.drop_last(), include_private) + (if ps.len() > 1 {
            seq![Seq::<char>::empty()]
        } else {
            Seq::empty()
        }) + seq![package_markdown(ps.last(), include_private, 2)]
    }
}

/// The Markdown for a selection of packages: one package section alone, or a
/// workspace heading, the package list, and a section per package.
pub open spec fn markdown_text(ps: Seq<ManifestModel>, include_private: bool) -> Seq<char> {
    if ps.len() == 1 {
        package_markdown(ps[0], include_private, 1)
    } else {
        join(
            seq![
                "# Workspace feature manifest"@,
                Seq::empty(),
                "Selected packages: "@ + join(
                    package_names(ps).map_values(|n: Seq<char>| "`"@ + n + "`"@),
                    ", "@,
                ),
                Seq::empty(),
            ] + package_sections(ps, include_private),
            "\n"@,
        )
    }
}

/// `level` hash marks.
fn hash_marks(level: usize) -> (r: String)
    ensures
        r@ == hashes(level as nat),
{
    let mut r = String::new();
    let mut i: usize = 0;
    while i < level
        invariant
            i <= level,
            r@ == hashes(i as nat),
        decreases level - i,
    {
        crate::text::push_char(&mut r, '#');
        assert(r@ =~= hashes(i as nat + 1));
        i = i + 1;
    }
    r
}

/// Executable form of [`default_summary_text`].
fn default_feature_summary(m: &FeatureManifest) -> (r: String)
    ensures
        r@ == default_summary_text(m@),
{
    if m.default_members.len() == 0 {
        return owned("Default feature set: _none_");
    }
    let ghost parts = m@.default_members.map_values(|r: RefModel| quoted_reference(r));
    let mut joined = String::new();
    let mut i: usize = 0;
    while i < m.default_members.len()
        invariant
            i <= m.default_members@.len(),
            parts == m@.default_members.map_values(|r: RefModel| quoted_reference(r)),
            joined@ == join(parts.take(i as int), ", "@),
        decreases m.default_members@.len() - i,
    {
        if i > 0 {
            joined.append(", ");
        }
        let raw = m.default_members[i].raw();
        let escaped = escape_markdown_inline(raw.as_str());
        joined.append("`");
        joined.append(escaped.as_str());
        joined.append("`");
        assert(parts.take(i as int + 1).drop_last() == parts.take(i as int));
        assert(parts[i as int] == quoted_reference(m.default_members@[i as int]@));
        assert(joined@ =~= join(parts.take(i as int + 1), ", "@));
        i = i + 1;
    }
    assert(parts.take(m.default_members@.len() as int) == parts);
    let mut r = owned("Default feature set: ");
    r.append(joined.as_str());
    r
}

/// Executable form of [`description_text`].
fn description_summary(f: &Feature) -> (r: String)
    ensures
        r@ == description_text(f@.metadata),
{
    let md = &f.metadata;
    let mut details: Vec<String> = Vec::new();
    match &md.note {
        Some(n) => details.push(crate::text::concat2("Note: ", n.as_str())),
        None => {},
    }
    let ghost d1 = views(details@);
    match &md.since {
        Some(s) => details.push(crate::text::concat2("Since: ", s.as_str())),
        None => {},
    }
    let ghost d2 = views(details@);
    match &md.docs {
        Some(d) => details.push(crate::text::concat2("Docs: ", d.as_str())),
        None => {},
    }
    let ghost d3 = views(details@);
    match &md.tracking_issue {
        Some(t) => details.push(crate::text::concat2("Tracking issue: ", t.as_str())),
        None => {},
    }
    let ghost d4 = views(details@);
    if md.requires.len() > 0 {
        let joined = join_strings(&md.requires, ", ");
        details.push(crate::text::concat2("Requires: ", joined.as_str()));
    }
    assert(views(details@) =~= description_details(md@));
    let mut r = match &md.description {
        Some(d) => d.clone(),
        None => owned("No description provided."),
    };
    if details.len() > 0 {
        r.append(" ");
        r.append(join_strings(&details, " ").as_str());
    }
    r
}

/// Executable form of [`feature_row`].
fn feature_row_text(f: &Feature) -> (r: String)
    ensures
        r@ == feature_row(f@),
{
    let mut r = owned("| `");
    r.append(escape_markdown_inline(f.name.as_str()).as_str());
    r.append("` | ");
    r.append(yes_no(f.default_enabled));
    r.append(" | ");
    r.append(visibility_label(&f.metadata));
    r.append(" | ");
    r.append(escape_markdown_inline(status_summary(&f.metadata).as_str()).as_str());
    r.append(" | ");
    let category: &str = match &f.metadata.category {
        Some(c) => c.as_str(),
        None => "—",
    };
    r.append(escape_markdown_cell(category).as_str());
    r.append(" | ");
    r.append(escape_markdown_cell(reference_summary(&f.enables).as_str()).as_str());
    r.append(" | ");
    r.append(escape_markdown_cell(description_summary(f).as_str()).as_str());
    r.append(" |");
    r
}

/// Executable form of [`group_line`].
fn group_line_text(g: &FeatureGroup) -> (r: String)
    ensures
        r@ == group_line(g@),
{
    let mut r = owned("- `");
    r.append(escape_markdown_inline(g.name.as_str()).as_str());
    r.append("`: ");
    let description: &str = match &g.description {
        Some(d) => d.as_str(),
        None => "No description provided.",
    };
    r.append(escape_markdown_cell(description).as_str());
    if g.mutually_exclusive {
        r.append(" Mutually exclusive.");
    }
    r.append(" Members: ");
    let ghost parts = g@.members.map_values(|x: Seq<char>| quoted_member(x));
    let ghost start = r@;
    let mut i: usize = 0;
    let mut joined = String::new();
    while i < g.members.len()
        invariant
            i <= g.members@.len(),
            parts == g@.members.map_values(|x: Seq<char>| quoted_member(x)),
            joined@ == join(parts.take(i as int), ", "@),
        decreases g.members@.len() - i,
    {
        if i > 0 {
            joined.append(", ");
        }
        joined.append(concat3("`", escape_markdown_inline(g.members[i].as_str()).as_str(), "`").as_str());
        assert(parts.take(i as int + 1).drop_last() == parts.take(i as int));
        assert(joined@ =~= join(parts.take(i as int + 1), ", "@));
        i = i + 1;
    }
    assert(parts.take(g.members@.len() as int) == parts);
    r.append(joined.as_str());
    r.append(".");
    r
}

/// The lines of one package section.
fn markdown_package_lines(m: &FeatureManifest, include_private: bool, level: usize) -> (r: Vec<String>)
    ensures
        views(r@) == package_lines(m@, include_private, level as nat),
{
    let heading = hash_marks(level);
    let title = match &m.package_name {
        Some(name) => {
            let mut t = heading.clone();
            t.append(" ");
            t.append(name.as_str());
            t.append(" feature manifest");
            t
        },
        None => crate::text::concat2(heading.as_str(), " Feature manifest"),
    };
    let mut lines: Vec<String> = Vec::new();
    lines.push(title);
    lines.push(String::new());
    lines.push(default_feature_summary(m));
    lines.push(String::new());
    lines.push(owned("| Feature | Default | Visibility | Status | Category | Enables | Description |"));
    lines.push(owned("| --- | --- | --- | --- | --- | --- | --- |"));
    let ghost head = views(lines@);
    assert(head =~= seq![
        title_text(m@, level as nat),
        Seq::empty(),
        default_summary_text(m@),
        Seq::empty(),
        "| Feature | Default | Visibility | Status | Category | Enables | Description |"@,
        "| --- | --- | --- | --- | --- | --- | --- |"@,
    ]);
    let ghost fs = m@.features;
    let mut hidden: usize = 0;
    let mut i: usize = 0;
    while i < m.features.len()
        invariant
            i <= m.features@.len(),
            fs == m@.features,
            views(lines@) == head + feature_rows(fs.take(i as int), include_private),
            hidden == hidden_count(fs.take(i as int), include_private),
            hidden <= i,
        decreases m.features@.len() - i,
    {
        assert(fs.take(i as int + 1).drop_last() == fs.take(i as int));
        assert(fs.take(i as int + 1).last() == m.features@[i as int]@);
        let f = &m.features[i];
        let ghost before = views(lines@);
        if !include_private && !f.metadata.public {
            hidden = hidden + 1;
            assert(views(lines@) == before);
        } else {
            let row = feature_row_text(f);
            lines.push(row);
            assert(views(lines@) =~= before.push(feature_row(f@)));
        }
        assert(views(lines@) =~= head + feature_rows(fs.take(i as int + 1), include_private));
        i = i + 1;
    }
    assert(fs.take(m.features@.len() as int) == fs);
    let ghost after_rows = views(lines@);
    if hidden > 0 && !include_private {
        lines.push(String::new());
        let mut note = owned("_");
        note.append(decimal_string(hidden).as_str());
        note.append(" internal/private feature(s) hidden. Use `--include-private` to render all._");
        lines.push(note);
    }
    let ghost after_hidden = views(lines@);
    assert(after_hidden =~= after_rows + (if hidden_count(m@.features, include_private) > 0
        && !include_private {
        seq![
            Seq::empty(),
            "_"@ + decimal(hidden_count(m@.features, include_private))
                + " internal/private feature(s) hidden. Use `--include-private` to render all._"@,
        ]
    } else {
        Seq::empty()
    }));
    if m.groups.len() > 0 {
        lines.push(String::new());
        lines.push(crate::text::concat2(heading.as_str(), "# Groups"));
        lines.push(String::new());
        let ghost group_head = views(lines@);
        let ghost glines = m@.groups.map_values(|g: GroupModel| group_line(g));
        let mut k: usize = 0;
        while k < m.groups.len()
            invariant
                k <= m.groups@.len(),
                glines == m@.groups.map_values(|g: GroupModel| group_line(g)),
                views(lines@) == group_head + glines.take(k as int),
            decreases m.groups@.len() - k,
        {
            let ghost before = views(lines@);
            let line = group_line_text(&m.groups[k]);
            lines.push(line);
            assert(glines[k as int] == group_line(m.groups@[k as int]@));
            assert(views(lines@) =~= before.push(glines[k as int]));
            assert(views(lines@) =~= group_head + glines.take(k as int + 1));
            k = k + 1;
        }
        assert(glines.take(m.groups@.len() as int) == glines);
        assert(group_head =~= after_hidden + seq![Seq::empty(), hashes(level as nat) + "# Groups"@, Seq::empty()]);
    }
    assert(views(lines@) =~= package_lines(m@, include_private, level as nat));
    lines
}

/// Renders one package section.
fn render_markdown_package(m: &FeatureManifest, include_private: bool, level: usize) -> (r: String)
    ensures
        r@ == package_markdown(m@, include_private, level as nat),
{
    join_strings(&markdown_package_lines(m, include_private, level), "\n")
}

/// Renders the selected packages as Markdown.
pub fn render_markdown(workspace: &WorkspaceManifest, include_private: bool) -> (r: String)
    ensures
        r@ == markdown_text(workspace@.packages, include_private),
{
    if workspace.is_single_package() {
        assert(workspace@.packages[0] == workspace.packages@[0]@);
        return render_markdown_package(&workspace.packages[0], include_private, 1);
    }
    let mut lines: Vec<String> = Vec::new();
    lines.push(owned("# Workspace feature manifest"));
    lines.push(String::new());
    let names = workspace.package_names();
    let ghost quoted_names = package_names(workspace@.packages).map_values(
        |n: Seq<char>| "`"@ + n + "`"@,
    );
    let mut list = String::new();
    let mut i: usize = 0;
    while i < names.len()
        invariant
            i <= names@.len(),
            str_views(names@) == package_names(workspace@.packages),
            quoted_names == package_names(workspace@.packages).map_values(
                |n: Seq<char>| "`"@ + n + "`"@,
            ),
            list@ == join(quoted_names.take(i as int), ", "@),
        decreases names@.len() - i,
    {
        if i > 0 {
            list.append(", ");
        }
        list.append(concat3("`", names[i], "`").as_str());
        assert(quoted_names.take(i as int + 1).drop_last() == quoted_names.take(i as int));
        assert(list@ =~= join(quoted_names.take(i as int + 1), ", "@));
        i = i + 1;
    }
    assert(quoted_names.take(names@.len() as int) == quoted_names);
    lines.push(crate::text::concat2("Selected packages: ", list.as_str()));
    lines.push(String::new());
    let ghost head = views(lines@);
    let ghost ps = workspace@.packages;
    let mut k: usize = 0;
    while k < workspace.packages.len()
        invariant
            k <= workspace.packages@.len(),
            ps == workspace@.packages,
            views(lines@) == head + package_sections(ps.take(k as int), include_private),
        decreases workspace.packages@.len() - k,
    {
        assert(ps.take(k as int + 1).drop_last() == ps.take(k as int));
        assert(ps.take(k as int + 1).last() == workspace.packages@[k as int]@);
        let ghost before = views(lines@);
        if k > 0 {
            lines.push(String::new());
        }
        let ghost mid = views(lines@);
        assert(mid =~= before + (if ps.take(k as int + 1).len() > 1 {
            seq![Seq::<char>::empty()]
        } else {
            Seq::empty()
        }));
        let section = render_markdown_package(&workspace.packages[k], include_private, 2);
        lines.push(section);
        assert(views(lines@) =~= mid.push(package_markdown(ps[k as int], include_private, 2)));
        assert(views(lines@) =~= head + package_sections(ps.take(k as int + 1), include_private));
        k = k + 1;
    }
    assert(ps.take(workspace.packages@.len() as int) == ps);
    assert(head =~= seq![
        "# Workspace feature manifest"@,
        Seq::empty(),
        "Selected packages: "@ + join(quoted_names, ", "@),
        Seq::empty(),
    ]);
    join_strings(&lines, "\n")
}

/// Whether `row` is the table row of some public feature of `fs`.
pub open spec fn is_public_row(fs: Seq<FeatureModel>, row: Seq<char>) -> bool {
    exists|j: int| 0 <= j < fs.len() && fs[j].metadata.public && feature_row(#[trigger] fs[j]) == row
}

/// Every table row shown without private features is the row of a public
/// feature.
pub proof fn lemma_rows_are_public(fs: Seq<FeatureModel>)
    ensures
        forall|i: int|
            0 <= i < feature_rows(fs, false).len() ==> #[trigger] is_public_row(
                fs,
                feature_rows(fs, false)[i],
            ),
    decreases fs.len(),
{
    if fs.len() > 0 {
        let init = fs.drop_last();
        lemma_rows_are_public(init);
        let prev = feature_rows(init, false);
        let all = feature_rows(fs, false);
        assert forall|i: int| 0 <= i < all.len() implies #[trigger] is_public_row(fs, all[i]) by {
            if i < prev.len() {
                assert(all[i] == prev[i]);
                assert(is_public_row(init, prev[i]));
                let j = choose|j: int|
                    0 <= j < init.len() && init[j].metadata.public && feature_row(#[trigger] init[j])
                        == prev[i];
                assert(fs[j] == init[j]);
            } else {
                assert(shown(fs.last(), false));
                assert(all[i] == feature_row(fs.last()));
                assert(fs[fs.len() - 1] == fs.last());
            }
        }
    }
}

/// Every feature gets a table row or is counted as hidden, nothing is
/// hidden when private features are included, and every row shown without
/// private features belongs to a public feature.
pub proof fn law_rows_and_hidden_cover_features(fs: Seq<FeatureModel>, include_private: bool)
    ensures
        feature_rows(fs, include_private).len() + hidden_count(fs, include_private) == fs.len(),
        include_private ==> hidden_count(fs, include_private) == 0,
        forall|i: int|
            0 <= i < feature_rows(fs, false).len() ==> #[trigger] is_public_row(
                fs,
                feature_rows(fs, false)[i],
            ),
    decreases fs.len(),
{
    if fs.len() > 0 {
        law_rows_and_hidden_cover_features(fs.drop_last(), include_private);
    }
    lemma_rows_are_public(fs);
}


/// How the row of a feature opens: its name, then `yes` in the Default
/// column when `features.default` enables it, `no` otherwise, then `public`
/// or `private` in the Visibility column as its metadata says.
pub open spec fn row_opening(f: FeatureModel) -> Seq<char> {
    "| `"@ + escape_markdown(f.name) + "` | "@ + (if f.default_enabled {
        "yes"@
    } else {
        "no"@
    }) + " | "@ + (if f.metadata.public {
        "public"@
    } else {
        "private"@
    }) + " | "@
}

/// The rows of a list of features hold, for each shown feature, a row that
/// opens with its name and its Default cell.
pub proof fn lemma_rows_open_with_default(fs: Seq<FeatureModel>, include_private: bool, k: int)
    requires
        0 <= k < fs.len(),
        include_private || fs[k].metadata.public,
    ensures
        exists|i: int|
            0 <= i < feature_rows(fs, include_private).len() && (#[trigger] feature_rows(fs, include_private)[i]).take(
                row_opening(fs[k]).len() as int,
            ) == row_opening(fs[k]),
    decreases fs.len(),
{
    let init = fs.drop_last();
    let prev = feature_rows(init, include_private);
    let all = feature_rows(fs, include_private);
    if k < fs.len() - 1 {
        assert(init[k] == fs[k]);
        lemma_rows_open_with_default(init, include_private, k);
        let i = choose|i: int|
            0 <= i < prev.len() && (#[trigger] prev[i]).take(row_opening(fs[k]).len() as int) == row_opening(fs[k]);
        assert(all[i] == prev[i]);
    } else {
        let f = fs.last();
        let row = feature_row(f);
        assert(all[prev.len() as int] == row);
        assert(row.take(row_opening(f).len() as int) =~= row_opening(f));
    }
}

/// The table of a package section has, for every shown feature, a row that
/// opens with the feature's name and says `yes` in the Default column exactly
/// when `features.default` enables the feature, `no` otherwise, and gives its
/// visibility.
pub proof fn law_default_cell(m: ManifestModel, include_private: bool, level: nat, k: int)
    requires
        0 <= k < m.features.len(),
        include_private || m.features[k].metadata.public,
    ensures
        exists|i: int|
            0 <= i < package_lines(m, include_private, level).len() && (#[trigger] package_lines(
                m,
                include_private,
                level,
            )[i]).take(row_opening(m.features[k]).len() as int) == row_opening(m.features[k]),
{
    lemma_rows_open_with_default(m.features, include_private, k);
    let rows = feature_rows(m.features, include_private);
    let i = choose|i: int|
        0 <= i < rows.len() && (#[trigger] rows[i]).take(row_opening(m.features[k]).len() as int) == row_opening(
            m.features[k],
        );
    assert(package_lines(m, include_private, level)[6 + i] == rows[i]);
}

} // verus!
