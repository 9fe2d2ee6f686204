//! The findings of `cargo fm doctor` that come from the manifest and README.

use vstd::prelude::*;

use crate::docs_io::{
    inspect_marker_source, lemma_default_markers_well_formed, marker_problem, markers_ordered,
    normalized, positions, region_matches, InjectionMarkers,
};
use crate::model::{FeatureManifest, ManifestModel, WorkspaceManifest};
use crate::order::pairs;
use crate::report::package_label;
use crate::text::{concat2, concat3, decimal, decimal_string, owned, trim};
use crate::validate::{count_severity, known_codes, validation_issues, Severity};

verus! {

/// How serious a doctor finding is.
#[derive(Debug, Clone, Copy, PartialEq, Eq, Structural)]
pub enum DoctorLevel {
    /// All is well.
    Pass,
    /// Worth a look.
    Warn,
    /// Needs fixing.
    Error,
}

/// One doctor finding and the suggested next action.
#[derive(Debug, Clone, PartialEq, Eq)]
pub struct DoctorCheck {
    /// How serious it is.
    pub level: DoctorLevel,
    /// What was found.
    pub message: String,
    /// What to do next, if anything.
    pub next_action: Option<String>,
}

/// The characters of a [`DoctorCheck`].
pub struct CheckModel {
    pub level: DoctorLevel,
    pub message: Seq<char>,
    pub next_action: Option<Seq<char>>,
}

impl View for DoctorCheck {
    type V = CheckModel;

    open spec fn view(&self) -> CheckModel {
        CheckModel {
            level: self.level,
            message: self.message@,
            next_action: crate::model::opt_view(self.next_action),
        }
    }
}

/// Views of findings.
pub open spec fn check_views(v: Seq<DoctorCheck>) -> Seq<CheckModel> {
    v.map_values(|c: DoctorCheck| c@)
}

/// A passing finding.
pub open spec fn ok_check(message: Seq<char>) -> CheckModel {
    CheckModel { level: DoctorLevel::Pass, message, next_action: None }
}

/// A warning and its next action.
pub open spec fn warn_check(message: Seq<char>, next: Seq<char>) -> CheckModel {
    CheckModel { level: DoctorLevel::Warn, message, next_action: Some(next) }
}

/// An error and its next action.
pub open spec fn error_check(message: Seq<char>, next: Seq<char>) -> CheckModel {
    CheckModel { level: DoctorLevel::Error, message, next_action: Some(next) }
}

impl DoctorCheck {
    /// A passing finding.
    pub fn ok(message: String) -> (r: Self)
        ensures
            r@ == ok_check(message@),
    {
        DoctorCheck { level: DoctorLevel::Pass, message, next_action: None }
    }

    /// A warning and its next action.
    pub fn warn(message: String, next_action: String) -> (r: Self)
        ensures
            r@ == warn_check(message@, next_action@),
    {
        DoctorCheck { level: DoctorLevel::Warn, message, next_action: Some(next_action) }
    }

    /// An error and its next action.
    pub fn error(message: String, next_action: String) -> (r: Self)
        ensures
            r@ == error_check(message@, next_action@),
    {
        DoctorCheck { level: DoctorLevel::Error, message, next_action: Some(next_action) }
    }
}

/// The validation finding for one package, checked without overrides.
pub open spec fn validation_check(m: ManifestModel) -> CheckModel {
    let issues = validation_issues(m, Seq::empty(), None);
    let errors = count_severity(issues, Severity::Error);
    let warnings = count_severity(issues, Severity::Warning);
    if errors > 0 {
        error_check(
            "`"@ + package_label(m) + "` has "@ + decimal(errors) + " validation error(s)"@,
            "run `cargo fm c` to see the failing lints, then fill in or fix feature metadata"@,
        )
    } else if warnings > 0 {
        warn_check(
            "`"@ + package_label(m) + "` has "@ + decimal(warnings) + " validation warning(s)"@,
            "run `cargo fm c --preset strict` if you want warnings to behave like release-blocking errors"@,
        )
    } else {
        ok_check("`"@ + package_label(m) + "` feature metadata validates cleanly"@)
    }
}

/// One validation finding per package.
pub fn validation_checks(workspace: &WorkspaceManifest) -> (r: Vec<DoctorCheck>)
    ensures
        check_views(r@) == workspace@.packages.map_values(|m: ManifestModel| validation_check(m)),
{
    let ghost target = workspace@.packages.map_values(|m: ManifestModel| validation_check(m));
    let options = crate::validate::ValidateOptions::new();
    assert(pairs(options.cli_lints@) =~= Seq::<(Seq<char>, crate::model::LintLevel)>::empty());
    let mut checks: Vec<DoctorCheck> = Vec::new();
    let mut k: usize = 0;
    while k < workspace.packages.len()
        invariant
            k <= workspace.packages@.len(),
            target == workspace@.packages.map_values(|m: ManifestModel| validation_check(m)),
            pairs(options.cli_lints@) == Seq::<(Seq<char>, crate::model::LintLevel)>::empty(),
            options.cli_preset is None,
            check_views(checks@) == target.take(k as int),
        decreases workspace.packages@.len() - k,
    {
        let package = &workspace.packages[k];
        let report = crate::validate::validate_with_options(package, &options);
        let name: &str = match &package.package_name {
            Some(n) => n.as_str(),
            None => "unknown-package",
        };
        assert(name@ == package_label(package@));
        let errors = report.error_count();
        let warnings = report.warning_count();
        let check = if errors > 0 {
            let mut message = concat3("`", name, "` has ");
            message.append(decimal_string(errors).as_str());
            message.append(" validation error(s)");
            DoctorCheck::error(
                message,
                owned("run `cargo fm c` to see the failing lints, then fill in or fix feature metadata"),
            )
        } else if warnings > 0 {
            let mut message = concat3("`", name, "` has ");
            message.append(decimal_string(warnings).as_str());
            message.append(" validation warning(s)");
            DoctorCheck::warn(
                message,
                owned("run `cargo fm c --preset strict` if you want warnings to behave like release-blocking errors"),
            )
        } else {
            DoctorCheck::ok(concat3("`", name, "` feature metadata validates cleanly"))
        };
        let ghost before = check_views(checks@);
        checks.push(check);
        assert(check_views(checks@) =~= before.push(validation_check(workspace.packages@[k as int]@)));
        assert(check_views(checks@) =~= target.take(k as int + 1));
        k = k + 1;
    }
    assert(target.take(workspace.packages@.len() as int) == target);
    checks
}

/// Findings for lint overrides with unknown codes in one package.
pub open spec fn unknown_lint_checks(m: ManifestModel, codes: Seq<(Seq<char>, crate::model::LintLevel)>) -> Seq<CheckModel>
    decreases codes.len(),
{
    if codes.len() == 0 {
        Seq::empty()
    } else {
        unknown_lint_checks(m, codes.drop_last()) + if known_codes().contains(codes.last().0) {
            Seq::empty()
        } else {
            seq![
                error_check(
                    "`"@ + package_label(m) + "` configures unknown lint `"@ + codes.last().0 + "`"@,
                    "run `cargo fm lints` for supported codes or remove the stale lint override"@,
                ),
            ]
        }
    }
}

/// Findings for unknown lint codes over packages.
pub open spec fn packages_lint_checks(ps: Seq<ManifestModel>) -> Seq<CheckModel>
    decreases ps.len(),
{
    if ps.len() == 0 {
        Seq::empty()
    } else {
        packages_lint_checks(ps.drop_last()) + unknown_lint_checks(ps.last(), ps.last().lint_overrides)
    }
}

/// The lint-configuration findings: one error per unknown code, or a single
/// passing finding.
pub open spec fn lint_checks(ps: Seq<ManifestModel>) -> Seq<CheckModel> {
    if packages_lint_checks(ps).len() == 0 {
        seq![ok_check("lint configuration uses known codes"@)]
    } else {
        packages_lint_checks(ps)
    }
}

/// Checks that lint overrides name known codes.
pub fn lint_compatibility_checks(workspace: &WorkspaceManifest) -> (r: Vec<DoctorCheck>)
    ensures
        check_views(r@) == lint_checks(workspace@.packages),
{
    let ghost ps = workspace@.packages;
    let mut checks: Vec<DoctorCheck> = Vec::new();
    let mut k: usize = 0;
    while k < workspace.packages.len()
        invariant
            k <= workspace.packages@.len(),
            ps == workspace@.packages,
            check_views(checks@) == packages_lint_checks(ps.take(k as int)),
        decreases workspace.packages@.len() - k,
    {
        assert(ps.take(k as int + 1).drop_last() == ps.take(k as int));
        assert(ps.take(k as int + 1).last() == workspace.packages@[k as int]@);
        let package = &workspace.packages[k];
        let name: &str = match &package.package_name {
            Some(n) => n.as_str(),
            None => "unknown-package",
        };
        assert(name@ == package_label(package@));
        let ghost start = check_views(checks@);
        let ghost codes = package@.lint_overrides;
        let mut j: usize = 0;
        while j < package.lint_overrides.len()
            invariant
                j <= package.lint_overrides@.len(),
                codes == package@.lint_overrides,
                name@ == package_label(package@),
                check_views(checks@) == start + unknown_lint_checks(package@, codes.take(j as int)),
            decreases package.lint_overrides@.len() - j,
        {
            assert(codes.take(j as int + 1).drop_last() == codes.take(j as int));
            assert(codes.take(j as int + 1).last() == (package.lint_overrides@[j as int].0@, package.lint_overrides@[j as int].1));
            let code = package.lint_overrides[j].0.as_str();
            let ghost before = check_views(checks@);
            if !crate::validate::is_known_code(code) {
                let mut message = concat3("`", name, "` configures unknown lint `");
                message.append(code);
                message.append("`");
                let c = DoctorCheck::error(
                    message,
                    owned("run `cargo fm lints` for supported codes or remove the stale lint override"),
                );
                checks.push(c);
                assert(check_views(checks@) =~= before.push(c@));
            }
            assert(check_views(checks@) =~= start + unknown_lint_checks(package@, codes.take(j as int + 1)));
            j = j + 1;
        }
        assert(codes.take(package.lint_overrides@.len() as int) == codes);
        k = k + 1;
    }
    assert(ps.take(workspace.packages@.len() as int) == ps);
    if checks.len() == 0 {
        checks.push(DoctorCheck::ok(owned("lint configuration uses known codes")));
        assert(check_views(checks@) =~= seq![ok_check("lint configuration uses known codes"@)]);
    }
    checks
}

/// The README finding: markers missing, malformed, or the generated section
/// up to date or stale. `source` is the README's text, when it could be read.
pub open spec fn readme_check(ps: Seq<ManifestModel>, path: Seq<char>, source: Option<Seq<char>>) -> CheckModel {
    let start = "<!-- feature-manifest:start -->"@;
    let end = "<!-- feature-manifest:end -->"@;
    match source {
        None => warn_check(
            "README markers were not found at `"@ + path + "`"@,
            "run `cargo fm init --readme "@ + path + "` or add the feature-manifest markers manually"@,
        ),
        Some(s) => if !(positions(s, start).len() == 1 && positions(s, end).len() == 1
            && markers_ordered(s, start, end)) {
            error_check(
                "README markers in `"@ + path + "` are partial, duplicated, or out of order"@,
                "keep exactly one start marker before exactly one end marker, then rerun `cargo fm md -i README.md`"@,
            )
        } else if normalized(
            trim(s.subrange(positions(s, start)[0] + start.len(), positions(s, end)[0])),
        ) == normalized(trim(crate::render::markdown::markdown_text(ps, false))) {
            ok_check("README feature section is up to date at `"@ + path + "`"@)
        } else {
            warn_check(
                "README feature section is stale at `"@ + path + "`"@,
                "run `cargo fm md -i "@ + path + "` to refresh generated feature docs"@,
            )
        },
    }
}

/// Checks the generated feature section of a README, given its text when it
/// could be read.
pub fn readme_checks(workspace: &WorkspaceManifest, readme_path: &str, source: Option<&str>) -> (r: Vec<DoctorCheck>)
    ensures
        check_views(r@) == seq![
            readme_check(
                workspace@.packages,
                readme_path@,
                match source {
                    Some(s) => Some(s@),
                    None => None,
                },
            ),
        ],
{
    let markers = InjectionMarkers::default();
    let check = match source {
        None => {
            let mut next = concat2("run `cargo fm init --readme ", readme_path);
            next.append("` or add the feature-manifest markers manually");
            DoctorCheck::warn(concat3("README markers were not found at `", readme_path, "`"), next)
        },
        Some(s) => {
            let report = inspect_marker_source(readme_path, s, &markers);
            if !report.ready() {
                DoctorCheck::error(
                    concat3("README markers in `", readme_path, "` are partial, duplicated, or out of order"),
                    owned("keep exactly one start marker before exactly one end marker, then rerun `cargo fm md -i README.md`"),
                )
            } else {
                proof {
                    lemma_default_markers_well_formed(s@);
                }
                let generated = crate::render::markdown::render_markdown(workspace, false);
                match region_matches(s, generated.as_str(), &markers) {
                    Ok(true) => DoctorCheck::ok(concat3("README feature section is up to date at `", readme_path, "`")),
                    Ok(false) => {
                        let mut next = concat2("run `cargo fm md -i ", readme_path);
                        next.append("` to refresh generated feature docs");
                        DoctorCheck::warn(concat3("README feature section is stale at `", readme_path, "`"), next)
                    },
                    Err(e) => DoctorCheck::error(
                        e.message(readme_path, &markers),
                        owned("inspect the README markers and rerun `cargo fm md -i README.md` once they are valid"),
                    ),
                }
            }
        },
    };
    let mut r: Vec<DoctorCheck> = Vec::new();
    r.push(check);
    r
}

/// Whether some finding has the given level.
pub open spec fn has_level(cs: Seq<CheckModel>, level: DoctorLevel) -> bool {
    exists|i: int| 0 <= i < cs.len() && #[trigger] cs[i].level == level
}

/// Why a doctor run fails, if it does: on any error, or, in strict mode, on
/// any warning.
pub open spec fn doctor_failure(cs: Seq<CheckModel>, strict: bool) -> Option<Seq<char>> {
    if has_level(cs, DoctorLevel::Error) {
        Some("doctor found errors"@)
    } else if strict && has_level(cs, DoctorLevel::Warn) {
        Some("doctor found warnings in strict mode"@)
    } else {
        None
    }
}

/// Decides the outcome of a doctor run from its findings.
pub fn doctor_verdict(checks: &Vec<DoctorCheck>, strict: bool) -> (r: Option<&'static str>)
    ensures
        match (r, doctor_failure(check_views(checks@), strict)) {
            (Some(a), Some(b)) => a@ == b,
            (None, None) => true,
            _ => false,
        },
{
    let ghost cs = check_views(checks@);
    let mut errors = false;
    let mut warnings = false;
    let mut i: usize = 0;
    while i < checks.len()
        invariant
            i <= checks@.len(),
            cs == check_views(checks@),
            errors == has_level(cs.take(i as int), DoctorLevel::Error),
            warnings == has_level(cs.take(i as int), DoctorLevel::Warn),
        decreases checks@.len() - i,
    {
        let ghost before = cs.take(i as int);
        assert(cs.take(i as int + 1) == before.push(cs[i as int]));
        assert(cs[i as int].level == checks@[i as int].level);
        match checks[i].level {
            DoctorLevel::Error => {
                errors = true;
            },
            DoctorLevel::Warn => {
                warnings = true;
            },
            DoctorLevel::Pass => {},
        }
        proof {
            let after = cs.take(i as int + 1);
            assert forall|l: DoctorLevel| has_level(after, l) == (has_level(before, l) || cs[i as int].level == l) by {
                if has_level(after, l) {
                    let k = choose|k: int| 0 <= k < after.len() && #[trigger] after[k].level == l;
                    if k < before.len() {
                        assert(before[k] == after[k]);
                    }
                }
                if has_level(before, l) {
                    let k = choose|k: int| 0 <= k < before.len() && #[trigger] before[k].level == l;
                    assert(after[k] == before[k]);
                }
                if cs[i as int].level == l {
                    assert(after[i as int] == cs[i as int]);
                }
            }
        }
        i = i + 1;
    }
    assert(cs.take(checks@.len() as int) == cs);
    if errors {
        Some("doctor found errors")
    } else if strict && warnings {
        Some("doctor found warnings in strict mode")
    } else {
        None
    }
}


/// Whether a workflow's text refers to the tool: it mentions `cargo fm` or
/// `feature-manifest`.
pub open spec fn workflow_mentions_tool(s: Seq<char>) -> bool {
    crate::docs_io::mentions(s, "cargo fm"@) || crate::docs_io::mentions(s, "feature-manifest"@)
}

/// Whether a file extension marks a GitHub Actions workflow.
pub open spec fn workflow_extension(ext: Seq<char>) -> bool {
    ext == "yml"@ || ext == "yaml"@
}

/// A file of the workflow directory: its displayed path, its extension, and
/// its text when it could be read.
pub struct WorkflowFile {
    pub path: String,
    pub extension: Option<String>,
    pub contents: Option<String>,
}

/// A workflow file as plain values.
pub open spec fn workflow_view(f: WorkflowFile) -> (Seq<char>, Option<Seq<char>>, Option<Seq<char>>) {
    (f.path@, crate::model::opt_view(f.extension), crate::model::opt_view(f.contents))
}

/// Workflow files as plain values.
pub open spec fn workflow_views(v: Seq<WorkflowFile>) -> Seq<(Seq<char>, Option<Seq<char>>, Option<Seq<char>>)> {
    v.map_values(|f: WorkflowFile| workflow_view(f))
}

/// Whether a file with this extension and text is a YAML workflow that
/// refers to the tool.
pub open spec fn workflow_refers(ext: Option<Seq<char>>, contents: Option<Seq<char>>) -> bool {
    match (ext, contents) {
        (Some(e), Some(c)) => workflow_extension(e) && workflow_mentions_tool(c),
        _ => false,
    }
}

/// The first workflow file, in directory order, that is YAML and whose text
/// refers to the tool.
pub open spec fn referring_workflow(fs: Seq<(Seq<char>, Option<Seq<char>>, Option<Seq<char>>)>) -> Option<Seq<char>>
    decreases fs.len(),
{
    if fs.len() == 0 {
        None
    } else if workflow_refers(fs[0].1, fs[0].2) {
        Some(fs[0].0)
    } else {
        referring_workflow(fs.drop_first())
    }
}

/// The CI finding, given the files of the workflow directory, or none when
/// the directory could not be read.
pub open spec fn ci_check_model(files: Option<Seq<(Seq<char>, Option<Seq<char>>, Option<Seq<char>>)>>) -> CheckModel {
    match files {
        None => warn_check(
            "no GitHub Actions workflow directory found"@,
            "run `cargo fm init --ci` or add `cargo fm` to an existing CI workflow"@,
        ),
        Some(fs) => match referring_workflow(fs) {
            Some(path) => ok_check("CI workflow references feature-manifest in `"@ + path + "`"@),
            None => warn_check(
                "no GitHub Actions workflow references feature-manifest"@,
                "run `cargo fm init --ci` or add `cargo fm` and `cargo fm md --check -i README.md` to CI"@,
            ),
        },
    }
}

/// Whether `p` occurs in `s`.
pub fn text_mentions(s: &str, p: &str) -> (b: bool)
    ensures
        b == crate::docs_io::mentions(s@, p@),
{
    let v = crate::text::chars_of(s);
    let w = crate::text::chars_of(p);
    let found = crate::model::find_from_exec(&v, &w, 0);
    proof {
        crate::model::lemma_find_from(v@, w@, 0);
        if crate::docs_io::mentions(s@, p@) {
            let j = choose|j: int| crate::model::occurs_at(s@, p@, j);
            assert(0 <= j);
        }
    }
    found.is_some()
}

/// Whether a file extension marks a GitHub Actions workflow.
pub fn is_workflow_extension(ext: &str) -> (b: bool)
    ensures
        b == workflow_extension(ext@),
{
    crate::text::str_eq(ext, "yml") || crate::text::str_eq(ext, "yaml")
}

/// The CI finding: passes at the first YAML workflow that refers to the
/// tool, else warns.
pub fn ci_check(files: Option<&Vec<WorkflowFile>>) -> (r: DoctorCheck)
    ensures
        r@ == ci_check_model(match files {
            Some(v) => Some(workflow_views(v@)),
            None => None,
        }),
{
    let list = match files {
        None => {
            return DoctorCheck::warn(
                owned("no GitHub Actions workflow directory found"),
                owned("run `cargo fm init --ci` or add `cargo fm` to an existing CI workflow"),
            );
        },
        Some(v) => v,
    };
    let ghost all = workflow_views(list@);
    assert(all.skip(0) =~= all);
    let mut i: usize = 0;
    while i < list.len()
        invariant
            i <= list@.len(),
            files matches Some(v) && v@ == list@,
            all == workflow_views(list@),
            referring_workflow(all) == referring_workflow(all.skip(i as int)),
        decreases list@.len() - i,
    {
        let f = &list[i];
        assert(all.skip(i as int)[0] == workflow_view(list@[i as int]));
        assert(all.skip(i as int).drop_first() =~= all.skip(i as int + 1));
        let yaml = match &f.extension {
            Some(e) => is_workflow_extension(e.as_str()),
            None => false,
        };
        if yaml {
            match &f.contents {
                Some(c) => {
                    if text_mentions(c.as_str(), "cargo fm") || text_mentions(c.as_str(), "feature-manifest") {
                        assert(workflow_view(*f).1 == Some(f.extension->Some_0@));
                        assert(workflow_view(*f).2 == Some(c@));
                        assert(workflow_refers(all.skip(i as int)[0].1, all.skip(i as int)[0].2));
                        assert(referring_workflow(all.skip(i as int)) == Some(f.path@));
                        assert(referring_workflow(all) == Some(f.path@));
                        return DoctorCheck::ok(concat3("CI workflow references feature-manifest in `", f.path.as_str(), "`"));
                    }
                },
                None => {},
            }
        }
        i = i + 1;
    }
    assert(all.skip(list@.len() as int) =~= Seq::<(Seq<char>, Option<Seq<char>>, Option<Seq<char>>)>::empty());
    DoctorCheck::warn(
        owned("no GitHub Actions workflow references feature-manifest"),
        owned("run `cargo fm init --ci` or add `cargo fm` and `cargo fm md --check -i README.md` to CI"),
    )
}

} // verus!
