//! What the command line reports: lint overrides, validation summaries, and
//! per-issue messages.

use vstd::prelude::*;

use crate::model::{FeatureManifest, LintLevel, LintPreset, ManifestModel, WorkspaceManifest};
use crate::order::{key_insert, key_insert_exec, pairs};
use crate::text::{concat2, concat3, decimal, decimal_string, join, join_strings, owned, views};
use crate::validate::{
    count_severity, issue_views, lint_override_outcome, parse_lint_override, refusal_matches,
    validate_with_options,
    validation_issues, Issue, IssueModel, LintOverrideError, OverrideOutcome, Severity,
    ValidateOptions, ValidationReport,
};

verus! {

/// Why the lint overrides given on the command line were refused: the first
/// refused value and why.
#[derive(Debug, Clone, PartialEq, Eq)]
pub struct InvalidLintOverride {
    /// The value as given.
    pub value: String,
    /// Why it was refused.
    pub error: LintOverrideError,
}

/// Whether every override parses.
pub open spec fn overrides_parse(raw: Seq<Seq<char>>) -> bool {
    forall|i: int| 0 <= i < raw.len() ==> (#[trigger] lint_override_outcome(raw[i])) is Parsed
}

/// The overrides collected from values that all parse, a later value for a code
/// replacing an earlier one.
pub open spec fn override_levels(raw: Seq<Seq<char>>) -> Seq<(Seq<char>, LintLevel)>
    decreases raw.len(),
{
    if raw.len() == 0 {
        Seq::empty()
    } else {
        match lint_override_outcome(raw.last()) {
            OverrideOutcome::Parsed(code, level) => key_insert(override_levels(raw.drop_last()), code, level),
            _ => override_levels(raw.drop_last()),
        }
    }
}

/// Index of the first override that does not parse.
pub open spec fn first_bad_override(raw: Seq<Seq<char>>) -> Option<int>
    decreases raw.len(),
{
    if raw.len() == 0 {
        None
    } else {
        match first_bad_override(raw.drop_last()) {
            Some(i) => Some(i),
            None => if lint_override_outcome(raw.last()) is Parsed {
                None
            } else {
                Some(raw.len() - 1)
            },
        }
    }
}

/// The first refused override exists exactly when some override is refused.
pub proof fn lemma_bad_override_exists(raw: Seq<Seq<char>>)
    ensures
        (first_bad_override(raw) is Some) == exists|i: int|
            0 <= i < raw.len() && !(#[trigger] lint_override_outcome(raw[i]) is Parsed),
        first_bad_override(raw) matches Some(i) ==> 0 <= i < raw.len(),
    decreases raw.len(),
{
    if raw.len() > 0 {
        let init = raw.drop_last();
        lemma_bad_override_exists(init);
        if exists|i: int| 0 <= i < init.len() && !(#[trigger] lint_override_outcome(init[i]) is Parsed) {
            let i = choose|i: int| 0 <= i < init.len() && !(#[trigger] lint_override_outcome(init[i]) is Parsed);
            assert(init[i] == raw[i]);
        }
        if exists|i: int| 0 <= i < raw.len() && !(#[trigger] lint_override_outcome(raw[i]) is Parsed) {
            let i = choose|i: int| 0 <= i < raw.len() && !(#[trigger] lint_override_outcome(raw[i]) is Parsed);
            if i < init.len() {
                assert(init[i] == raw[i]);
            }
        }
    }
}

/// Validates every selected package with the given overrides and preset, refusing the first override that does not parse.
pub fn collect_reports<'a>(
    workspace: &'a WorkspaceManifest,
    lint_overrides: &Vec<String>,
    preset: Option<LintPreset>,
) -> (r: Result<Vec<(&'a FeatureManifest, ValidationReport)>, InvalidLintOverride>)
    ensures
        match first_bad_override(views(lint_overrides@)) {
            Some(i) => r matches Err(e) && e.value@ == lint_overrides@[i]@ && refusal_matches(
                e.error,
                lint_override_outcome(lint_overrides@[i]@),
            ),
            None => r matches Ok(reports) && reports@.len() == workspace.packages@.len() && forall|
                k: int,
            |
                0 <= k < reports@.len() ==> *(#[trigger] reports@[k]).0 == workspace.packages@[k]
                    && issue_views(reports@[k].1.issues@) == validation_issues(
                    workspace.packages@[k]@,
                    override_levels(views(lint_overrides@)),
                    preset,
                ),
        },
        (r is Err) == exists|i: int|
            0 <= i < lint_overrides@.len() && !(#[trigger] lint_override_outcome(views(lint_overrides@)[i]) is Parsed),
{
    proof {
        lemma_bad_override_exists(views(lint_overrides@));
    }
    let ghost raw = views(lint_overrides@);
    let mut cli_lints: Vec<(String, LintLevel)> = Vec::new();
    assert(pairs(cli_lints@) =~= Seq::<(Seq<char>, LintLevel)>::empty());
    let mut i: usize = 0;
    while i < lint_overrides.len()
        invariant
            i <= lint_overrides@.len(),
            raw == views(lint_overrides@),
            first_bad_override(raw.take(i as int)) is None,
            pairs(cli_lints@) == override_levels(raw.take(i as int)),
        decreases lint_overrides@.len() - i,
    {
        assert(raw.take(i as int + 1).drop_last() == raw.take(i as int));
        assert(raw.take(i as int + 1).last() == lint_overrides@[i as int]@);
        match parse_lint_override(lint_overrides[i].as_str()) {
            Ok((code, level)) => {
                key_insert_exec(&mut cli_lints, code, level);
            },
            Err(error) => {
                proof {
                    assert(first_bad_override(raw.take(i as int + 1)) == Some(i as int));
                    lemma_bad_prefix(raw, i as int + 1);
                }
                return Err(InvalidLintOverride { value: lint_overrides[i].clone(), error });
            },
        }
        i = i + 1;
    }
    assert(raw.take(lint_overrides@.len() as int) == raw);
    let options = ValidateOptions { cli_lints, cli_preset: preset };
    let mut reports: Vec<(&'a FeatureManifest, ValidationReport)> = Vec::new();
    let mut k: usize = 0;
    while k < workspace.packages.len()
        invariant
            k <= workspace.packages@.len(),
            pairs(options.cli_lints@) == override_levels(raw),
            options.cli_preset == preset,
            raw == views(lint_overrides@),
            reports@.len() == k,
            forall|j: int|
                0 <= j < k ==> *(#[trigger] reports@[j]).0 == workspace.packages@[j] && issue_views(
                    reports@[j].1.issues@,
                ) == validation_issues(workspace.packages@[j]@, override_levels(raw), preset),
        decreases workspace.packages@.len() - k,
    {
        let package = &workspace.packages[k];
        let report = validate_with_options(package, &options);
        reports.push((package, report));
        k = k + 1;
    }
    Ok(reports)
}

/// The first bad override of a prefix is the first bad override overall.
pub proof fn lemma_bad_prefix(raw: Seq<Seq<char>>, n: int)
    requires
        0 <= n <= raw.len(),
        first_bad_override(raw.take(n)) is Some,
    ensures
        first_bad_override(raw) == first_bad_override(raw.take(n)),
    decreases raw.len() - n,
{
    if n < raw.len() {
        assert(raw.take(n + 1).drop_last() == raw.take(n));
        lemma_bad_prefix(raw, n + 1);
    } else {
        assert(raw.take(n) == raw);
    }
}

/// Totals over a workspace check.
#[derive(Debug, Clone, Copy, PartialEq, Eq, Structural)]
pub struct Summary {
    pub packages: usize,
    pub features: usize,
    pub groups: usize,
    pub errors: usize,
    pub warnings: usize,
}

/// The number of features over packages.
pub open spec fn total_features(ps: Seq<ManifestModel>) -> nat
    decreases ps.len(),
{
    if ps.len() == 0 {
        0
    } else {
        total_features(ps.drop_last()) + ps.last().features.len()
    }
}

/// The number of groups over packages.
pub open spec fn total_groups(ps: Seq<ManifestModel>) -> nat
    decreases ps.len(),
{
    if ps.len() == 0 {
        0
    } else {
        total_groups(ps.drop_last()) + ps.last().groups.len()
    }
}

/// The number of issues of a severity over reports.
pub open spec fn total_severity(rs: Seq<ValidationReport>, s: Severity) -> nat
    decreases rs.len(),
{
    if rs.len() == 0 {
        0
    } else {
        total_severity(rs.drop_last(), s) + count_severity(issue_views(rs.last().issues@), s)
    }
}

/// The reports of package reports.
pub open spec fn report_list<'a>(rs: Seq<(&'a FeatureManifest, ValidationReport)>) -> Seq<ValidationReport> {
    rs.map_values(|r: (&'a FeatureManifest, ValidationReport)| r.1)
}

/// Totals a workspace check; the totals fit in a
/// `usize`, since they are summed in `usize` arithmetic.
pub fn workspace_summary<'a>(
    workspace: &WorkspaceManifest,
    reports: &Vec<(&'a FeatureManifest, ValidationReport)>,
) -> (r: Summary)
    requires
        total_features(workspace@.packages) <= usize::MAX,
        total_groups(workspace@.packages) <= usize::MAX,
        total_severity(report_list(reports@), Severity::Error) <= usize::MAX,
        total_severity(report_list(reports@), Severity::Warning) <= usize::MAX,
    ensures
        r.packages == workspace@.packages.len(),
        r.features == total_features(workspace@.packages),
        r.groups == total_groups(workspace@.packages),
        r.errors == total_severity(report_list(reports@), Severity::Error),
        r.warnings == total_severity(report_list(reports@), Severity::Warning),
{
    let ghost ps = workspace@.packages;
    let mut features: usize = 0;
    let mut groups: usize = 0;
    let mut k: usize = 0;
    while k < workspace.packages.len()
        invariant
            k <= workspace.packages@.len(),
            ps == workspace@.packages,
            total_features(ps) <= usize::MAX,
            total_groups(ps) <= usize::MAX,
            features == total_features(ps.take(k as int)),
            groups == total_groups(ps.take(k as int)),
        decreases workspace.packages@.len() - k,
    {
        assert(ps.take(k as int + 1).drop_last() == ps.take(k as int));
        assert(ps.take(k as int + 1).last() == workspace.packages@[k as int]@);
        proof {
            lemma_totals_prefix(ps, k as int + 1);
        }
        features = features + workspace.packages[k].features.len();
        groups = groups + workspace.packages[k].groups.len();
        k = k + 1;
    }
    assert(ps.take(workspace.packages@.len() as int) == ps);
    let ghost rl = report_list(reports@);
    let mut errors: usize = 0;
    let mut warnings: usize = 0;
    let mut j: usize = 0;
    while j < reports.len()
        invariant
            j <= reports@.len(),
            rl == report_list(reports@),
            total_severity(rl, Severity::Error) <= usize::MAX,
            total_severity(rl, Severity::Warning) <= usize::MAX,
            errors == total_severity(rl.take(j as int), Severity::Error),
            warnings == total_severity(rl.take(j as int), Severity::Warning),
        decreases reports@.len() - j,
    {
        assert(rl.take(j as int + 1).drop_last() == rl.take(j as int));
        assert(rl.take(j as int + 1).last() == reports@[j as int].1);
        proof {
            lemma_severity_prefix(rl, j as int + 1, Severity::Error);
            lemma_severity_prefix(rl, j as int + 1, Severity::Warning);
        }
        errors = errors + reports[j].1.error_count();
        warnings = warnings + reports[j].1.warning_count();
        j = j + 1;
    }
    assert(rl.take(reports@.len() as int) == rl);
    Summary { packages: workspace.packages.len(), features, groups, errors, warnings }
}

/// Totals over a prefix are at most the whole totals.
pub proof fn lemma_totals_prefix(ps: Seq<ManifestModel>, n: int)
    requires
        0 <= n <= ps.len(),
    ensures
        total_features(ps.take(n)) <= total_features(ps),
        total_groups(ps.take(n)) <= total_groups(ps),
    decreases ps.len() - n,
{
    if n < ps.len() {
        lemma_totals_prefix(ps, n + 1);
        assert(ps.take(n + 1).drop_last() == ps.take(n));
    } else {
        assert(ps.take(n) == ps);
    }
}

/// Counts over a prefix are at most the whole counts.
pub proof fn lemma_severity_prefix(rs: Seq<ValidationReport>, n: int, s: Severity)
    requires
        0 <= n <= rs.len(),
    ensures
        total_severity(rs.take(n), s) <= total_severity(rs, s),
    decreases rs.len() - n,
{
    if n < rs.len() {
        lemma_severity_prefix(rs, n + 1, s);
        assert(rs.take(n + 1).drop_last() == rs.take(n));
    } else {
        assert(rs.take(n) == rs);
    }
}

/// The name shown for a package.
pub open spec fn package_label(m: ManifestModel) -> Seq<char> {
    match m.package_name {
        Some(n) => n,
        None => "unknown-package"@,
    }
}

/// The message of an issue as annotations show it: the package, the feature
/// when there is one, and the issue's message.
pub open spec fn issue_message_text(m: ManifestModel, i: IssueModel) -> Seq<char> {
    match i.feature {
        Some(f) => "package `"@ + package_label(m) + "` feature `"@ + f + "`: "@ + i.message,
        None => "package `"@ + package_label(m) + "`: "@ + i.message,
    }
}

/// The message of an issue as annotations show it.
pub fn issue_message(package: &FeatureManifest, issue: &Issue) -> (r: String)
    ensures
        r@ == issue_message_text(package@, issue@),
{
    let name: &str = match &package.package_name {
        Some(n) => n.as_str(),
        None => "unknown-package",
    };
    assert(name@ == package_label(package@));
    let mut r = concat2("package `", name);
    match &issue.feature {
        Some(f) => {
            r.append("` feature `");
            r.append(f.as_str());
            r.append("`: ");
        },
        None => {
            r.append("`: ");
        },
    }
    r.append(issue.message.as_str());
    r
}

/// `count noun`, with an `s` unless the count is one.
pub open spec fn pluralized_text(count: nat, noun: Seq<char>) -> Seq<char> {
    decimal(count) + " "@ + noun + if count == 1 {
        Seq::empty()
    } else {
        "s"@
    }
}

/// `count noun`, with an `s` unless the count is one.
pub fn pluralized(count: usize, noun: &str) -> (r: String)
    ensures
        r@ == pluralized_text(count as nat, noun@),
{
    let mut r = decimal_string(count);
    r.append(" ");
    r.append(noun);
    if count != 1 {
        r.append("s");
    }
    r
}

/// The name of a layout.
pub open spec fn layout_text(l: crate::model::MetadataLayout) -> Seq<char> {
    match l {
        crate::model::MetadataLayout::Flat => "flat"@,
        crate::model::MetadataLayout::Structured => "structured"@,
    }
}

/// The name of a layout.
pub fn layout_name(l: crate::model::MetadataLayout) -> (r: &'static str)
    ensures
        r@ == layout_text(l),
{
    match l {
        crate::model::MetadataLayout::Flat => "flat",
        crate::model::MetadataLayout::Structured => "structured",
    }
}

/// The parts of a sync summary: what was added and removed (or that only the
/// layout changed), then the layout used.
pub open spec fn change_parts(added: nat, removed: nat, style: crate::model::MetadataLayout) -> Seq<Seq<char>> {
    let parts = (if added > 0 {
        seq!["added "@ + pluralized_text(added, "feature"@)]
    } else {
        Seq::empty()
    }) + (if removed > 0 {
        seq![
            "removed "@ + decimal(removed) + " stale metadata entr"@ + if removed == 1 {
                "y"@
            } else {
                "ies"@
            },
        ]
    } else {
        Seq::empty()
    });
    (if parts.len() == 0 {
        seq!["layout updated"@]
    } else {
        parts
    }) + seq!["using `"@ + layout_text(style) + "` layout"@]
}

/// A one-line summary of a sync.
pub fn change_summary(report: &crate::sync::SyncReport) -> (r: String)
    ensures
        r@ == join(
            change_parts(
                report.added_features@.len(),
                report.removed_features@.len(),
                report.style,
            ),
            ", "@,
        ),
{
    let mut parts: Vec<String> = Vec::new();
    if report.added_features.len() > 0 {
        parts.push(concat2("added ", pluralized(report.added_features.len(), "feature").as_str()));
    }
    let n = report.removed_features.len();
    if n > 0 {
        let mut part = owned("removed ");
        part.append(decimal_string(n).as_str());
        part.append(" stale metadata entr");
        if n == 1 {
            part.append("y");
        } else {
            part.append("ies");
        }
        parts.push(part);
    }
    if parts.len() == 0 {
        parts.push(owned("layout updated"));
    }
    parts.push(concat3("using `", layout_name(report.style), "` layout"));
    assert(views(parts@) =~= change_parts(
        report.added_features@.len(),
        report.removed_features@.len(),
        report.style,
    ));
    join_strings(&parts, ", ")
}

} // verus!
