//! The machine-readable forms of a check: JSON, SARIF results, and GitHub
//! workflow annotations, before printing.

use vstd::prelude::*;

use crate::model::{opt_view, FeatureManifest, ManifestModel, WorkspaceManifest};
use crate::paths::{portable_path, portable_relative_path};
use crate::report::{issue_message, issue_message_text, Summary};
use crate::source_map::{issue_span, span_of, ManifestSourceMap, SourceSpan};
use crate::text::{concat2, concat3, decimal, decimal_string, owned, push_char, views};
use crate::validate::{
    count_severity, issue_views, severity_text, Issue, IssueModel, Severity, ValidationReport,
};

verus! {

/// Output format of `cargo fm check`.
#[derive(Debug, Clone, Copy, PartialEq, Eq, Structural)]
pub enum CheckFormat {
    /// Human-readable lines.
    Text,
    /// The versioned JSON report.
    Json,
    /// GitHub workflow annotations.
    Github,
    /// A SARIF log.
    Sarif,
}

/// One issue in the JSON check report.
#[derive(Debug, Clone, PartialEq, Eq)]
pub struct JsonIssue {
    pub code: String,
    pub severity: String,
    pub feature: Option<String>,
    pub message: String,
}

/// One package in the JSON check report.
#[derive(Debug, Clone, PartialEq, Eq)]
pub struct JsonCheckPackage {
    pub package_name: Option<String>,
    pub manifest_path: String,
    pub errors: usize,
    pub warnings: usize,
    pub issues: Vec<JsonIssue>,
}

/// The JSON check report.
#[derive(Debug, Clone, PartialEq, Eq)]
pub struct JsonCheckReport {
    pub schema_version: u32,
    pub packages: Vec<JsonCheckPackage>,
    pub summary: Summary,
}

/// The characters of a [`JsonIssue`].
pub struct JsonIssueModel {
    pub code: Seq<char>,
    pub severity: Seq<char>,
    pub feature: Option<Seq<char>>,
    pub message: Seq<char>,
}

impl View for JsonIssue {
    type V = JsonIssueModel;

    open spec fn view(&self) -> JsonIssueModel {
        JsonIssueModel {
            code: self.code@,
            severity: self.severity@,
            feature: opt_view(self.feature),
            message: self.message@,
        }
    }
}

/// The JSON form of an issue.
pub open spec fn json_issue(i: IssueModel) -> JsonIssueModel {
    JsonIssueModel {
        code: i.code,
        severity: severity_text(i.severity),
        feature: i.feature,
        message: i.message,
    }
}

/// The JSON form of an issue.
fn issue_to_json(i: &Issue) -> (r: JsonIssue)
    ensures
        r@ == json_issue(i@),
{
    JsonIssue {
        code: owned(i.code),
        severity: owned(i.severity.as_str()),
        feature: crate::model::copy_opt(&i.feature),
        message: i.message.clone(),
    }
}

/// Whether a JSON check package describes a package and its report.
pub open spec fn describes(root: Seq<char>, j: JsonCheckPackage, m: ManifestModel, r: ValidationReport) -> bool {
    &&& opt_view(j.package_name) == m.package_name
    &&& j.manifest_path@ == portable_path(root, m.manifest_path)
    &&& j.errors == count_severity(issue_views(r.issues@), Severity::Error)
    &&& j.warnings == count_severity(issue_views(r.issues@), Severity::Warning)
    &&& j.issues@.map_values(|x: JsonIssue| x@) == issue_views(r.issues@).map_values(
        |i: IssueModel| json_issue(i),
    )
}

/// The JSON check report: one entry per package report
/// and the totals.
pub fn check_report<'a>(
    workspace: &WorkspaceManifest,
    reports: &Vec<(&'a FeatureManifest, ValidationReport)>,
    summary: &Summary,
) -> (r: JsonCheckReport)
    ensures
        r.schema_version == 1,
        r.packages@.len() == reports@.len(),
        forall|k: int|
            0 <= k < reports@.len() ==> describes(
                workspace@.root_manifest_path,
                #[trigger] r.packages@[k],
                reports@[k].0@,
                reports@[k].1,
            ),
        r.summary == *summary,
{
    let mut packages: Vec<JsonCheckPackage> = Vec::new();
    let mut k: usize = 0;
    while k < reports.len()
        invariant
            k <= reports@.len(),
            packages@.len() == k,
            forall|j: int|
                0 <= j < k ==> describes(
                    workspace@.root_manifest_path,
                    #[trigger] packages@[j],
                    reports@[j].0@,
                    reports@[j].1,
                ),
        decreases reports@.len() - k,
    {
        let package = reports[k].0;
        let report = &reports[k].1;
        let ghost target = issue_views(report.issues@).map_values(|i: IssueModel| json_issue(i));
        let mut issues: Vec<JsonIssue> = Vec::new();
        let mut i: usize = 0;
        while i < report.issues.len()
            invariant
                i <= report.issues@.len(),
                target == issue_views(report.issues@).map_values(|i: IssueModel| json_issue(i)),
                issues@.map_values(|x: JsonIssue| x@) == target.take(i as int),
            decreases report.issues@.len() - i,
        {
            let ghost before = issues@.map_values(|x: JsonIssue| x@);
            issues.push(issue_to_json(&report.issues[i]));
            assert(issues@.map_values(|x: JsonIssue| x@) =~= before.push(json_issue(report.issues@[i as int]@)));
            assert(issues@.map_values(|x: JsonIssue| x@) =~= target.take(i as int + 1));
            i = i + 1;
        }
        assert(target.take(report.issues@.len() as int) == target);
        let entry = JsonCheckPackage {
            package_name: crate::model::copy_opt(&package.package_name),
            manifest_path: portable_relative_path(workspace.root_manifest_path.as_str(), package.manifest_path.as_str()),
            errors: report.error_count(),
            warnings: report.warning_count(),
            issues,
        };
        packages.push(entry);
        k = k + 1;
    }
    JsonCheckReport { schema_version: 1, packages, summary: *summary }
}

/// One SARIF result.
#[derive(Debug, Clone, PartialEq, Eq)]
pub struct SarifResult {
    /// The lint code.
    pub rule_id: String,
    /// `warning` or `error`.
    pub level: String,
    /// The annotation message.
    pub message: String,
    /// The manifest, relative to the workspace root.
    pub uri: String,
    /// Where in the manifest the issue points, when it can be located.
    pub span: Option<SourceSpan>,
}

/// The manifest texts as characters.
pub open spec fn source_views(v: Seq<Option<String>>) -> Seq<Option<Seq<char>>> {
    v.map_values(|o: Option<String>| opt_view(o))
}

/// Where an issue points in a package's manifest text, if the text is known
/// and the issue can be located in it.
pub open spec fn issue_location(source: Option<Seq<char>>, i: IssueModel) -> Option<SourceSpan> {
    match source {
        Some(text) => span_of(issue_span(text, i)),
        None => None,
    }
}

/// What a SARIF result holds for an issue of a package.
pub open spec fn sarif_result(root: Seq<char>, m: ManifestModel, source: Option<Seq<char>>, i: IssueModel) -> (
    Seq<char>,
    Seq<char>,
    Seq<char>,
    Seq<char>,
    Option<SourceSpan>,
) {
    (
        i.code,
        severity_text(i.severity),
        issue_message_text(m, i),
        portable_path(root, m.manifest_path),
        issue_location(source, i),
    )
}

/// The fields of a SARIF result.
pub open spec fn sarif_fields(x: SarifResult) -> (Seq<char>, Seq<char>, Seq<char>, Seq<char>, Option<SourceSpan>) {
    (x.rule_id@, x.level@, x.message@, x.uri@, x.span)
}

/// The SARIF results of the reports, package by package, issue by issue;
/// `sources` holds each package's manifest text, when it could be read.
pub open spec fn sarif_results_model<'a>(
    root: Seq<char>,
    rs: Seq<(&'a FeatureManifest, ValidationReport)>,
    sources: Seq<Option<Seq<char>>>,
) -> Seq<(Seq<char>, Seq<char>, Seq<char>, Seq<char>, Option<SourceSpan>)>
    decreases rs.len(),
{
    if rs.len() == 0 {
        Seq::empty()
    } else {
        sarif_results_model(root, rs.drop_last(), sources.drop_last()) + issue_views(
            rs.last().1.issues@,
        ).map_values(|i: IssueModel| sarif_result(root, rs.last().0@, sources.last(), i))
    }
}

/// Where an issue points in an optional manifest text.
fn locate(source: &Option<String>, issue: &Issue) -> (r: Option<SourceSpan>)
    ensures
        r == issue_location(opt_view(*source), issue@),
{
    match source {
        Some(text) => ManifestSourceMap::new(text.as_str()).span_for_issue(issue),
        None => None,
    }
}

/// The SARIF results of the reports, package by package, issue by issue;
/// `sources` holds each package's manifest text, when it could be read.
pub fn sarif_results<'a>(
    workspace: &WorkspaceManifest,
    reports: &Vec<(&'a FeatureManifest, ValidationReport)>,
    sources: &Vec<Option<String>>,
) -> (r: Vec<SarifResult>)
    requires
        sources@.len() == reports@.len(),
    ensures
        r@.map_values(|x: SarifResult| sarif_fields(x)) == sarif_results_model(
            workspace@.root_manifest_path,
            reports@,
            source_views(sources@),
        ),
{
    let ghost root = workspace@.root_manifest_path;
    let ghost srcs = source_views(sources@);
    let mut results: Vec<SarifResult> = Vec::new();
    let mut k: usize = 0;
    while k < reports.len()
        invariant
            k <= reports@.len(),
            sources@.len() == reports@.len(),
            root == workspace@.root_manifest_path,
            srcs == source_views(sources@),
            results@.map_values(|x: SarifResult| sarif_fields(x)) == sarif_results_model(
                root,
                reports@.take(k as int),
                srcs.take(k as int),
            ),
        decreases reports@.len() - k,
    {
        assert(reports@.take(k as int + 1).drop_last() == reports@.take(k as int));
        assert(reports@.take(k as int + 1).last() == reports@[k as int]);
        assert(srcs.take(k as int + 1).drop_last() == srcs.take(k as int));
        assert(srcs.take(k as int + 1).last() == srcs[k as int]);
        let package = reports[k].0;
        let report = &reports[k].1;
        let source = &sources[k];
        assert(srcs[k as int] == opt_view(*source));
        let uri = portable_relative_path(workspace.root_manifest_path.as_str(), package.manifest_path.as_str());
        let ghost start = results@.map_values(|x: SarifResult| sarif_fields(x));
        let ghost target = issue_views(report.issues@).map_values(
            |i: IssueModel| sarif_result(root, package@, opt_view(*source), i),
        );
        let mut i: usize = 0;
        while i < report.issues.len()
            invariant
                i <= report.issues@.len(),
                uri@ == portable_path(root, package@.manifest_path),
                target == issue_views(report.issues@).map_values(
                    |i: IssueModel| sarif_result(root, package@, opt_view(*source), i),
                ),
                results@.map_values(|x: SarifResult| sarif_fields(x)) == start + target.take(i as int),
            decreases report.issues@.len() - i,
        {
            let issue = &report.issues[i];
            let ghost before = results@.map_values(|x: SarifResult| sarif_fields(x));
            results.push(SarifResult {
                rule_id: owned(issue.code),
                level: owned(issue.severity.as_str()),
                message: issue_message(package, issue),
                uri: uri.clone(),
                span: locate(source, issue),
            });
            assert(results@.map_values(|x: SarifResult| sarif_fields(x)) =~= before.push(
                sarif_result(root, package@, opt_view(*source), issue@),
            ));
            assert(results@.map_values(|x: SarifResult| sarif_fields(x)) =~= start + target.take(
                i as int + 1,
            ));
            i = i + 1;
        }
        assert(target.take(report.issues@.len() as int) == target);
        k = k + 1;
    }
    assert(reports@.take(reports@.len() as int) == reports@);
    assert(srcs.take(reports@.len() as int) == srcs);
    results
}

/// How one character of an annotation message is written: `%`, carriage
/// return, and line feed are percent-encoded.
pub open spec fn workflow_char(c: char) -> Seq<char> {
    if c == '%' {
        "%25"@
    } else if c == '\r' {
        "%0D"@
    } else if c == '\n' {
        "%0A"@
    } else {
        seq![c]
    }
}

/// An annotation message encoded for a GitHub workflow command.
pub open spec fn workflow_escaped(s: Seq<char>) -> Seq<char>
    decreases s.len(),
{
    if s.len() == 0 {
        Seq::empty()
    } else {
        workflow_escaped(s.drop_last()) + workflow_char(s.last())
    }
}

/// Encodes an annotation message for a GitHub workflow command.
pub fn escape_github_workflow_message(s: &str) -> (r: String)
    ensures
        r@ == workflow_escaped(s@),
{
    let v = crate::text::chars_of(s);
    let mut r = String::new();
    let mut i: usize = 0;
    while i < v.len()
        invariant
            i <= v@.len(),
            v@ == s@,
            r@ == workflow_escaped(v@.take(i as int)),
        decreases v@.len() - i,
    {
        let c = v[i];
        assert(v@.take(i as int + 1).drop_last() == v@.take(i as int));
        assert(v@.take(i as int + 1).last() == c);
        if c == '%' {
            r.append("%25");
        } else if c == '\r' {
            r.append("%0D");
        } else if c == '\n' {
            r.append("%0A");
        } else {
            push_char(&mut r, c);
        }
        i = i + 1;
    }
    assert(v@.take(v@.len() as int) == v@);
    r
}

/// How an annotation names a location: `,line=L,col=C`, or nothing when
/// the issue was not located.
pub open spec fn location_text(span: Option<SourceSpan>) -> Seq<char> {
    match span {
        Some(sp) => ",line="@ + decimal(sp.line as nat) + ",col="@ + decimal(sp.column as nat),
        None => Seq::empty(),
    }
}

/// The annotation line of an issue.
pub open spec fn annotation_line(root: Seq<char>, m: ManifestModel, source: Option<Seq<char>>, i: IssueModel) -> Seq<char> {
    "::"@ + severity_text(i.severity) + " file="@ + portable_path(root, m.manifest_path)
        + location_text(issue_location(source, i)) + ",title=feature-manifest "@ + i.code + "::"@
        + workflow_escaped(issue_message_text(m, i))
}

/// The annotation lines of the reports, package by package, issue by issue;
/// `sources` holds each package's manifest text, when it could be read.
pub open spec fn annotation_lines<'a>(
    root: Seq<char>,
    rs: Seq<(&'a FeatureManifest, ValidationReport)>,
    sources: Seq<Option<Seq<char>>>,
) -> Seq<Seq<char>>
    decreases rs.len(),
{
    if rs.len() == 0 {
        Seq::empty()
    } else {
        annotation_lines(root, rs.drop_last(), sources.drop_last()) + issue_views(
            rs.last().1.issues@,
        ).map_values(|i: IssueModel| annotation_line(root, rs.last().0@, sources.last(), i))
    }
}

/// The text that names an annotation's location.
fn location_string(span: Option<SourceSpan>) -> (r: String)
    ensures
        r@ == location_text(span),
{
    match span {
        Some(sp) => {
            let mut r = owned(",line=");
            r.append(decimal_string(sp.line).as_str());
            r.append(",col=");
            r.append(decimal_string(sp.column).as_str());
            r
        },
        None => String::new(),
    }
}

/// The GitHub workflow annotations of the reports, one line per issue;
/// `sources` holds each package's manifest text, when it could be
/// read.
pub fn github_annotations<'a>(
    workspace: &WorkspaceManifest,
    reports: &Vec<(&'a FeatureManifest, ValidationReport)>,
    sources: &Vec<Option<String>>,
) -> (r: Vec<String>)
    requires
        sources@.len() == reports@.len(),
    ensures
        views(r@) == annotation_lines(workspace@.root_manifest_path, reports@, source_views(sources@)),
{
    let ghost root = workspace@.root_manifest_path;
    let ghost srcs = source_views(sources@);
    let mut lines: Vec<String> = Vec::new();
    let mut k: usize = 0;
    while k < reports.len()
        invariant
            k <= reports@.len(),
            sources@.len() == reports@.len(),
            root == workspace@.root_manifest_path,
            srcs == source_views(sources@),
            views(lines@) == annotation_lines(root, reports@.take(k as int), srcs.take(k as int)),
        decreases reports@.len() - k,
    {
        assert(reports@.take(k as int + 1).drop_last() == reports@.take(k as int));
        assert(reports@.take(k as int + 1).last() == reports@[k as int]);
        assert(srcs.take(k as int + 1).drop_last() == srcs.take(k as int));
        assert(srcs.take(k as int + 1).last() == srcs[k as int]);
        let package = reports[k].0;
        let report = &reports[k].1;
        let source = &sources[k];
        assert(srcs[k as int] == opt_view(*source));
        let path = portable_relative_path(workspace.root_manifest_path.as_str(), package.manifest_path.as_str());
        let ghost start = views(lines@);
        let ghost target = issue_views(report.issues@).map_values(
            |i: IssueModel| annotation_line(root, package@, opt_view(*source), i),
        );
        let mut i: usize = 0;
        while i < report.issues.len()
            invariant
                i <= report.issues@.len(),
                path@ == portable_path(root, package@.manifest_path),
                target == issue_views(report.issues@).map_values(
                    |i: IssueModel| annotation_line(root, package@, opt_view(*source), i),
                ),
                views(lines@) == start + target.take(i as int),
            decreases report.issues@.len() - i,
        {
            let issue = &report.issues[i];
            let mut line = concat2("::", issue.severity.as_str());
            line.append(" file=");
            line.append(path.as_str());
            line.append(location_string(locate(source, issue)).as_str());
            line.append(",title=feature-manifest ");
            line.append(issue.code);
            line.append("::");
            line.append(escape_github_workflow_message(issue_message(package, issue).as_str()).as_str());
            let ghost before = views(lines@);
            lines.push(line);
            assert(views(lines@) =~= before.push(annotation_line(root, package@, opt_view(*source), issue@)));
            assert(views(lines@) =~= start + target.take(i as int + 1));
            i = i + 1;
        }
        assert(target.take(report.issues@.len() as int) == target);
        k = k + 1;
    }
    assert(reports@.take(reports@.len() as int) == reports@);
    assert(srcs.take(reports@.len() as int) == srcs);
    lines
}

} // verus!
