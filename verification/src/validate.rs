//! Lint registry, validation of a normalized manifest, and lint overrides.

use vstd::prelude::*;

use crate::model::{
    contains_string, dependency_views, feature_index, local_name, opt_view, str_views,
    DependencyInfo, DependencyModel, FeatureManifest, FeatureModel, FeatureRef, GroupModel,
    LintLevel, LintPreset, ManifestModel, MetadataModel, RefModel,
};
use crate::order::{key_get, key_insert, key_insert_exec, key_value, pairs, sorted_set,
    sorted_set_exec, strs_less, strs_less_exec};
use crate::text::{
    all_space, concat2, concat3, concat5, decimal, decimal_string, is_blank, join, join_strings,
    owned, str_eq, trim_str, views,
};

verus! {

/// Severity level attached to a validation issue.
#[derive(Debug, Clone, Copy, PartialEq, Eq, Structural)]
pub enum Severity {
    /// Non-blocking validation finding.
    Warning,
    /// Blocking validation finding.
    Error,
}

/// The display name of a severity.
pub open spec fn severity_text(s: Severity) -> Seq<char> {
    match s {
        Severity::Warning => "warning"@,
        Severity::Error => "error"@,
    }
}

impl Severity {
    /// The display name: `warning` or `error`.
    pub fn as_str(&self) -> (r: &'static str)
        ensures
            r@ == severity_text(*self),
    {
        match self {
            Severity::Warning => "warning",
            Severity::Error => "error",
        }
    }
}

/// Documentation for a supported lint code.
#[derive(Debug, Clone, Copy, PartialEq, Eq)]
pub struct LintDoc {
    /// Stable lint code used in output formats and configuration.
    pub code: &'static str,
    /// Default severity before presets or overrides are applied.
    pub default_severity: Severity,
    /// Short lint description.
    pub summary: &'static str,
    /// Suggested fix or next action.
    pub guidance: &'static str,
}

/// The lint codes recognized by validation and override parsing, in stable order.
pub open spec fn known_codes() -> Seq<Seq<char>> {
    seq![
        "missing-metadata"@,
        "missing-description"@,
        "sensitive-default"@,
        "unknown-reference"@,
        "unknown-feature-reference"@,
        "unknown-metadata"@,
        "unknown-default-member"@,
        "unknown-default-reference"@,
        "small-group"@,
        "duplicate-group-member"@,
        "unknown-group-member"@,
        "mutually-exclusive-default"@,
        "dependency-not-found"@,
        "dependency-not-optional"@,
        "private-enabled-by-public"@,
        "feature-cycle"@,
    ]
}

/// The known lint codes in stable order.
pub fn known_lint_codes() -> (codes: Vec<&'static str>)
    ensures
        str_views(codes@) == known_codes(),
{
    let codes = vec![
        "missing-metadata",
        "missing-description",
        "sensitive-default",
        "unknown-reference",
        "unknown-feature-reference",
        "unknown-metadata",
        "unknown-default-member",
        "unknown-default-reference",
        "small-group",
        "duplicate-group-member",
        "unknown-group-member",
        "mutually-exclusive-default",
        "dependency-not-found",
        "dependency-not-optional",
        "private-enabled-by-public",
        "feature-cycle",
    ];
    assert(str_views(codes@) =~= known_codes());
    codes
}

/// Codes of a list of lint docs.
pub open spec fn doc_codes(docs: Seq<LintDoc>) -> Seq<Seq<char>> {
    docs.map_values(|d: LintDoc| d.code@)
}

/// The characters of a [`LintDoc`].
pub struct LintDocModel {
    pub code: Seq<char>,
    pub default_severity: Severity,
    pub summary: Seq<char>,
    pub guidance: Seq<char>,
}

/// The view of a lint doc.
pub open spec fn doc_model(d: LintDoc) -> LintDocModel {
    LintDocModel {
        code: d.code@,
        default_severity: d.default_severity,
        summary: d.summary@,
        guidance: d.guidance@,
    }
}

/// The documentation of every lint, in the order of [`known_codes`].
pub open spec fn lint_doc_models() -> Seq<LintDocModel> {
    seq![
        LintDocModel {
            code: "missing-metadata"@,
            default_severity: Severity::Error,
            summary: "Feature exists in `[features]` but has no metadata entry."@,
            guidance: "Add an entry under `[package.metadata.feature-manifest.features]`, or run `cargo fm sync` to scaffold TODO descriptions."@,
        },
        LintDocModel {
            code: "missing-description"@,
            default_severity: Severity::Error,
            summary: "Metadata exists but has no usable description."@,
            guidance: "Fill in `description` with text that explains why the feature exists."@,
        },
        LintDocModel {
            code: "sensitive-default"@,
            default_severity: Severity::Error,
            summary: "A private, deprecated, or unstable feature is default-enabled without acknowledgement."@,
            guidance: "Remove the feature from `default`, or set `allow_default = true` when the default is intentional."@,
        },
        LintDocModel {
            code: "unknown-reference"@,
            default_severity: Severity::Warning,
            summary: "A feature entry contains syntax that feature-manifest cannot classify."@,
            guidance: "Use local features, `dep:name`, `name/feature`, or `name?/feature` when possible."@,
        },
        LintDocModel {
            code: "unknown-feature-reference"@,
            default_severity: Severity::Error,
            summary: "A feature enables a plain name that is neither a declared feature nor an optional dependency."@,
            guidance: "Add the missing feature, make the dependency optional, switch to `dep:name`, or remove the stale reference."@,
        },
        LintDocModel {
            code: "unknown-metadata"@,
            default_severity: Severity::Error,
            summary: "Metadata exists for a feature that is not declared in `[features]`."@,
            guidance: "Delete the stale metadata, re-add the feature, or run `cargo fm sync --remove-stale`."@,
        },
        LintDocModel {
            code: "unknown-default-member"@,
            default_severity: Severity::Error,
            summary: "`features.default` contains a missing default member."@,
            guidance: "Remove the missing default member, add the feature to `[features]`, or make the referenced dependency optional."@,
        },
        LintDocModel {
            code: "unknown-default-reference"@,
            default_severity: Severity::Warning,
            summary: "`features.default` contains syntax that feature-manifest cannot classify."@,
            guidance: "Use local feature names in `default` when possible."@,
        },
        LintDocModel {
            code: "small-group"@,
            default_severity: Severity::Warning,
            summary: "A group has fewer than two members."@,
            guidance: "Add at least one more member or remove the group."@,
        },
        LintDocModel {
            code: "duplicate-group-member"@,
            default_severity: Severity::Error,
            summary: "A group repeats the same member more than once."@,
            guidance: "Deduplicate the `members` array for the group."@,
        },
        LintDocModel {
            code: "unknown-group-member"@,
            default_severity: Severity::Error,
            summary: "A group references a feature that does not exist."@,
            guidance: "Remove the missing group member or add the feature to `[features]`."@,
        },
        LintDocModel {
            code: "mutually-exclusive-default"@,
            default_severity: Severity::Error,
            summary: "A mutually exclusive group has multiple default-enabled members."@,
            guidance: "Keep at most one member of the group in the default feature set."@,
        },
        LintDocModel {
            code: "dependency-not-found"@,
            default_severity: Severity::Error,
            summary: "A dependency-based feature reference points at a missing dependency."@,
            guidance: "Fix the dependency key, add the dependency, or remove the stale `dep:`/dependency-feature reference."@,
        },
        LintDocModel {
            code: "dependency-not-optional"@,
            default_severity: Severity::Error,
            summary: "`dep:name` or `name?/feature` is used for a dependency that is not optional."@,
            guidance: "Mark the dependency `optional = true`, or use a plain dependency feature reference when the dependency is always enabled."@,
        },
        LintDocModel {
            code: "private-enabled-by-public"@,
            default_severity: Severity::Warning,
            summary: "A public feature enables a private feature."@,
            guidance: "Make the dependency feature public too, or document why the public feature intentionally exposes that internal toggle."@,
        },
        LintDocModel {
            code: "feature-cycle"@,
            default_severity: Severity::Error,
            summary: "Local features form a cycle."@,
            guidance: "Break the cycle by removing one local feature reference from the loop."@,
        },
    ]
}

/// Documentation for every known lint code, in the order of [`known_codes`].
pub fn lint_docs() -> (docs: Vec<LintDoc>)
    ensures
        doc_codes(docs@) == known_codes(),
        docs@.map_values(|d: LintDoc| doc_model(d)) == lint_doc_models(),
{
    let docs = vec![
        LintDoc {
            code: "missing-metadata",
            default_severity: Severity::Error,
            summary: "Feature exists in `[features]` but has no metadata entry.",
            guidance: "Add an entry under `[package.metadata.feature-manifest.features]`, or run `cargo fm sync` to scaffold TODO descriptions.",
        },
        LintDoc {
            code: "missing-description",
            default_severity: Severity::Error,
            summary: "Metadata exists but has no usable description.",
            guidance: "Fill in `description` with text that explains why the feature exists.",
        },
        LintDoc {
            code: "sensitive-default",
            default_severity: Severity::Error,
            summary: "A private, deprecated, or unstable feature is default-enabled without acknowledgement.",
            guidance: "Remove the feature from `default`, or set `allow_default = true` when the default is intentional.",
        },
        LintDoc {
            code: "unknown-reference",
            default_severity: Severity::Warning,
            summary: "A feature entry contains syntax that feature-manifest cannot classify.",
            guidance: "Use local features, `dep:name`, `name/feature`, or `name?/feature` when possible.",
        },
        LintDoc {
            code: "unknown-feature-reference",
            default_severity: Severity::Error,
            summary: "A feature enables a plain name that is neither a declared feature nor an optional dependency.",
            guidance: "Add the missing feature, make the dependency optional, switch to `dep:name`, or remove the stale reference.",
        },
        LintDoc {
            code: "unknown-metadata",
            default_severity: Severity::Error,
            summary: "Metadata exists for a feature that is not declared in `[features]`.",
            guidance: "Delete the stale metadata, re-add the feature, or run `cargo fm sync --remove-stale`.",
        },
        LintDoc {
            code: "unknown-default-member",
            default_severity: Severity::Error,
            summary: "`features.default` contains a missing default member.",
            guidance: "Remove the missing default member, add the feature to `[features]`, or make the referenced dependency optional.",
        },
        LintDoc {
            code: "unknown-default-reference",
            default_severity: Severity::Warning,
            summary: "`features.default` contains syntax that feature-manifest cannot classify.",
            guidance: "Use local feature names in `default` when possible.",
        },
        LintDoc {
            code: "small-group",
            default_severity: Severity::Warning,
            summary: "A group has fewer than two members.",
            guidance: "Add at least one more member or remove the group.",
        },
        LintDoc {
            code: "duplicate-group-member",
            default_severity: Severity::Error,
            summary: "A group repeats the same member more than once.",
            guidance: "Deduplicate the `members` array for the group.",
        },
        LintDoc {
            code: "unknown-group-member",
            default_severity: Severity::Error,
            summary: "A group references a feature that does not exist.",
            guidance: "Remove the missing group member or add the feature to `[features]`.",
        },
        LintDoc {
            code: "mutually-exclusive-default",
            default_severity: Severity::Error,
            summary: "A mutually exclusive group has multiple default-enabled members.",
            guidance: "Keep at most one member of the group in the default feature set.",
        },
        LintDoc {
            code: "dependency-not-found",
            default_severity: Severity::Error,
            summary: "A dependency-based feature reference points at a missing dependency.",
            guidance: "Fix the dependency key, add the dependency, or remove the stale `dep:`/dependency-feature reference.",
        },
        LintDoc {
            code: "dependency-not-optional",
            default_severity: Severity::Error,
            summary: "`dep:name` or `name?/feature` is used for a dependency that is not optional.",
            guidance: "Mark the dependency `optional = true`, or use a plain dependency feature reference when the dependency is always enabled.",
        },
        LintDoc {
            code: "private-enabled-by-public",
            default_severity: Severity::Warning,
            summary: "A public feature enables a private feature.",
            guidance: "Make the dependency feature public too, or document why the public feature intentionally exposes that internal toggle.",
        },
        LintDoc {
            code: "feature-cycle",
            default_severity: Severity::Error,
            summary: "Local features form a cycle.",
            guidance: "Break the cycle by removing one local feature reference from the loop.",
        },
    ];
    assert(doc_codes(docs@) =~= known_codes());
    assert(docs@.map_values(|d: LintDoc| doc_model(d)) =~= lint_doc_models());
    docs
}

/// The level named by a lint configuration value.
pub open spec fn level_named(s: Seq<char>) -> Option<LintLevel> {
    if s == "allow"@ {
        Some(LintLevel::Allow)
    } else if s == "warn"@ {
        Some(LintLevel::Warn)
    } else if s == "deny"@ {
        Some(LintLevel::Deny)
    } else {
        None
    }
}

/// The preset named by a configuration value.
pub open spec fn preset_named(s: Seq<char>) -> Option<LintPreset> {
    if s == "adopt"@ {
        Some(LintPreset::Adopt)
    } else if s == "strict"@ {
        Some(LintPreset::Strict)
    } else {
        None
    }
}

impl LintLevel {
    /// Reads `allow`, `warn`, or `deny`.
    pub fn parse(s: &str) -> (r: Option<LintLevel>)
        ensures
            r == level_named(s@),
    {
        if str_eq(s, "allow") {
            Some(LintLevel::Allow)
        } else if str_eq(s, "warn") {
            Some(LintLevel::Warn)
        } else if str_eq(s, "deny") {
            Some(LintLevel::Deny)
        } else {
            None
        }
    }
}

impl LintPreset {
    /// Reads `adopt` or `strict`.
    pub fn parse(s: &str) -> (r: Option<LintPreset>)
        ensures
            r == preset_named(s@),
    {
        if str_eq(s, "adopt") {
            Some(LintPreset::Adopt)
        } else if str_eq(s, "strict") {
            Some(LintPreset::Strict)
        } else {
            None
        }
    }
}

/// Why a lint override string was refused.
#[derive(Debug, Clone, PartialEq, Eq)]
pub enum LintOverrideError {
    /// No `=` separates the code from the level; holds the whole input.
    MissingSeparator(String),
    /// The code is not a known lint code; holds the trimmed code.
    UnknownCode(String),
    /// The level is not `allow`, `warn`, or `deny`; holds the trimmed level.
    UnknownLevel(String),
}

/// Whether an override error is the refusal that [`lint_override_outcome`] gives.
pub open spec fn refusal_matches(e: LintOverrideError, o: OverrideOutcome) -> bool {
    match (e, o) {
        (LintOverrideError::MissingSeparator(s), OverrideOutcome::MissingSeparator(t)) => s@ == t,
        (LintOverrideError::UnknownCode(s), OverrideOutcome::UnknownCode(t)) => s@ == t,
        (LintOverrideError::UnknownLevel(s), OverrideOutcome::UnknownLevel(t)) => s@ == t,
        _ => false,
    }
}

/// How a refused lint override reads.
pub open spec fn override_error_text(e: LintOverrideError) -> Seq<char> {
    match e {
        LintOverrideError::MissingSeparator(raw) => "expected `<lint>=<allow|warn|deny>`, found `"@
            + raw@ + "`"@,
        LintOverrideError::UnknownCode(code) => "unknown lint code `"@ + code@ + "`; known codes: "@
            + join(known_codes(), ", "@),
        LintOverrideError::UnknownLevel(level) => "unknown lint level `"@ + level@
            + "`; expected `allow`, `warn`, or `deny`"@,
    }
}

impl LintOverrideError {
    /// The error as one line of text.
    pub fn message(&self) -> (r: String)
        ensures
            r@ == override_error_text(*self),
    {
        match self {
            LintOverrideError::MissingSeparator(raw) => concat3(
                "expected `<lint>=<allow|warn|deny>`, found `",
                raw.as_str(),
                "`",
            ),
            LintOverrideError::UnknownCode(code) => {
                let codes = known_lint_codes();
                let mut owned_codes: Vec<String> = Vec::new();
                let mut i: usize = 0;
                while i < codes.len()
                    invariant
                        i <= codes@.len(),
                        views(owned_codes@) == crate::model::str_views(codes@).take(i as int),
                    decreases codes@.len() - i,
                {
                    owned_codes.push(owned(codes[i]));
                    assert(crate::model::str_views(codes@).take(i as int + 1) =~= crate::model::str_views(
                        codes@,
                    ).take(i as int).push(codes@[i as int]@));
                    i = i + 1;
                }
                assert(crate::model::str_views(codes@).take(codes@.len() as int) =~= known_codes());
                let mut r = concat3("unknown lint code `", code.as_str(), "`; known codes: ");
                r.append(join_strings(&owned_codes, ", ").as_str());
                r
            },
            LintOverrideError::UnknownLevel(level) => concat3(
                "unknown lint level `",
                level.as_str(),
                "`; expected `allow`, `warn`, or `deny`",
            ),
        }
    }
}

/// What [`parse_lint_override`] gives for an input.
pub enum OverrideOutcome {
    Parsed(Seq<char>, LintLevel),
    MissingSeparator(Seq<char>),
    UnknownCode(Seq<char>),
    UnknownLevel(Seq<char>),
}

/// The outcome of parsing `code=level`, with both sides trimmed.
pub open spec fn lint_override_outcome(raw: Seq<char>) -> OverrideOutcome {
    match crate::model::split_once(raw, "="@) {
        None => OverrideOutcome::MissingSeparator(raw),
        Some((code, level)) => if !known_codes().contains(crate::text::trim(code)) {
            OverrideOutcome::UnknownCode(crate::text::trim(code))
        } else {
            match level_named(crate::text::trim(level)) {
                Some(l) => OverrideOutcome::Parsed(crate::text::trim(code), l),
                None => OverrideOutcome::UnknownLevel(crate::text::trim(level)),
            }
        },
    }
}

/// Whether `code` is a known lint code.
pub fn is_known_code(code: &str) -> (b: bool)
    ensures
        b == known_codes().contains(code@),
{
    let codes = known_lint_codes();
    let mut i: usize = 0;
    while i < codes.len()
        invariant
            i <= codes@.len(),
            str_views(codes@) == known_codes(),
            forall|j: int| 0 <= j < i ==> known_codes()[j] != code@,
        decreases codes@.len() - i,
    {
        assert(str_views(codes@)[i as int] == codes@[i as int]@);
        if str_eq(codes[i], code) {
            assert(known_codes()[i as int] == code@);
            return true;
        }
        i = i + 1;
    }
    false
}

/// Parses a lint override string like `missing-description=warn`.
pub fn parse_lint_override(raw: &str) -> (r: Result<(String, LintLevel), LintOverrideError>)
    ensures
        match (r, lint_override_outcome(raw@)) {
            (Ok((code, level)), OverrideOutcome::Parsed(c, l)) => code@ == c && level == l,
            (Err(LintOverrideError::MissingSeparator(s)), OverrideOutcome::MissingSeparator(t)) => s@
                == t,
            (Err(LintOverrideError::UnknownCode(s)), OverrideOutcome::UnknownCode(t)) => s@ == t,
            (Err(LintOverrideError::UnknownLevel(s)), OverrideOutcome::UnknownLevel(t)) => s@ == t,
            _ => false,
        },
{
    let v = crate::text::chars_of(raw);
    let sep = crate::text::chars_of("=");
    match crate::model::split_once_exec(&v, &sep) {
        None => Err(LintOverrideError::MissingSeparator(owned(raw))),
        Some((code, level)) => {
            let code = trim_str(code.as_str());
            if !is_known_code(code.as_str()) {
                return Err(LintOverrideError::UnknownCode(code));
            }
            let level = trim_str(level.as_str());
            match LintLevel::parse(level.as_str()) {
                Some(l) => Ok((code, l)),
                None => Err(LintOverrideError::UnknownLevel(level)),
            }
        },
    }
}

/// Configuration applied during validation.
#[derive(Debug, Clone, Default, PartialEq, Eq)]
pub struct ValidateOptions {
    /// Per-run lint level overrides keyed by lint code, ordered by code.
    pub cli_lints: Vec<(String, LintLevel)>,
    /// Per-run lint preset.
    pub cli_preset: Option<LintPreset>,
}

/// Overrides collected from entries, a later entry for a code replacing an earlier one.
pub open spec fn collect_levels(entries: Seq<(Seq<char>, LintLevel)>) -> Seq<(Seq<char>, LintLevel)>
    decreases entries.len(),
{
    if entries.len() == 0 {
        Seq::empty()
    } else {
        key_insert(collect_levels(entries.drop_last()), entries.last().0, entries.last().1)
    }
}

impl ValidateOptions {
    /// Options with no overrides and no preset.
    pub fn new() -> (o: Self)
        ensures
            o.cli_lints@.len() == 0,
            o.cli_preset is None,
    {
        ValidateOptions { cli_lints: Vec::new(), cli_preset: None }
    }

    /// Builds options from CLI-style lint overrides.
    pub fn with_cli_lint_overrides(entries: Vec<(String, LintLevel)>) -> (o: Self)
        ensures
            pairs(o.cli_lints@) == collect_levels(pairs(entries@)),
            o.cli_preset is None,
    {
        let mut cli_lints: Vec<(String, LintLevel)> = Vec::new();
        let mut i: usize = 0;
        while i < entries.len()
            invariant
                i <= entries@.len(),
                pairs(cli_lints@) == collect_levels(pairs(entries@).take(i as int)),
            decreases entries@.len() - i,
        {
            let code = entries[i].0.clone();
            let level = entries[i].1;
            proof {
                assert(pairs(entries@).take(i as int + 1).drop_last() == pairs(entries@).take(
                    i as int,
                ));
                assert(pairs(entries@).take(i as int + 1).last() == (code@, level));
            }
            key_insert_exec(&mut cli_lints, code, level);
            i = i + 1;
        }
        assert(pairs(entries@).take(entries@.len() as int) == pairs(entries@));
        ValidateOptions { cli_lints, cli_preset: None }
    }

    /// These options with the given preset.
    pub fn with_cli_preset(self, preset: Option<LintPreset>) -> (o: Self)
        ensures
            o.cli_lints@ == self.cli_lints@,
            o.cli_preset == preset,
    {
        ValidateOptions { cli_lints: self.cli_lints, cli_preset: preset }
    }
}


/// A single validation finding produced by [`validate`].
#[derive(Debug, Clone, PartialEq, Eq)]
pub struct Issue {
    /// Effective severity after presets and overrides.
    pub severity: Severity,
    /// Severity before presets and overrides.
    pub default_severity: Severity,
    /// Stable lint code.
    pub code: &'static str,
    /// Associated feature or group name when applicable.
    pub feature: Option<String>,
    /// Human-readable explanation.
    pub message: String,
}

/// The characters of an [`Issue`].
pub struct IssueModel {
    pub severity: Severity,
    pub default_severity: Severity,
    pub code: Seq<char>,
    pub feature: Option<Seq<char>>,
    pub message: Seq<char>,
}

impl View for Issue {
    type V = IssueModel;

    open spec fn view(&self) -> IssueModel {
        IssueModel {
            severity: self.severity,
            default_severity: self.default_severity,
            code: self.code@,
            feature: opt_view(self.feature),
            message: self.message@,
        }
    }
}

/// Views of a list of issues.
pub open spec fn issue_views(v: Seq<Issue>) -> Seq<IssueModel> {
    v.map_values(|i: Issue| i@)
}

/// An error-level finding.
pub open spec fn error_issue(code: Seq<char>, feature: Option<Seq<char>>, message: Seq<char>) -> IssueModel {
    IssueModel {
        severity: Severity::Error,
        default_severity: Severity::Error,
        code,
        feature,
        message,
    }
}

/// A warning-level finding.
pub open spec fn warning_issue(code: Seq<char>, feature: Option<Seq<char>>, message: Seq<char>) -> IssueModel {
    IssueModel {
        severity: Severity::Warning,
        default_severity: Severity::Warning,
        code,
        feature,
        message,
    }
}

impl Issue {
    fn error(code: &'static str, feature: Option<String>, message: String) -> (i: Issue)
        ensures
            i@ == error_issue(code@, opt_view(feature), message@),
    {
        Issue {
            severity: Severity::Error,
            default_severity: Severity::Error,
            code,
            feature,
            message,
        }
    }

    fn warning(code: &'static str, feature: Option<String>, message: String) -> (i: Issue)
        ensures
            i@ == warning_issue(code@, opt_view(feature), message@),
    {
        Issue {
            severity: Severity::Warning,
            default_severity: Severity::Warning,
            code,
            feature,
            message,
        }
    }

    /// The issue as one line: `severity[code] `feature`: message`, or without the
    /// feature part when there is none.
    pub fn to_text(&self) -> (r: String)
        ensures
            r@ == issue_text(self@),
    {
        let mut r = owned(self.severity.as_str());
        r.append("[");
        r.append(self.code);
        match &self.feature {
            Some(feature) => {
                r.append("] `");
                r.append(feature.as_str());
                r.append("`: ");
            },
            None => {
                r.append("]: ");
            },
        }
        r.append(self.message.as_str());
        r
    }
}

/// How an issue reads as one line of text (`Display`).
pub open spec fn issue_text(i: IssueModel) -> Seq<char> {
    match i.feature {
        Some(feature) => severity_text(i.severity) + "["@ + i.code + "] `"@ + feature + "`: "@
            + i.message,
        None => severity_text(i.severity) + "["@ + i.code + "]: "@ + i.message,
    }
}

/// Aggregated output from a validation run.
#[derive(Debug, Clone, Default, PartialEq, Eq)]
pub struct ValidationReport {
    /// Validation issues in deterministic order.
    pub issues: Vec<Issue>,
}

/// Number of issues of the given severity.
pub open spec fn count_severity(v: Seq<IssueModel>, s: Severity) -> nat
    decreases v.len(),
{
    if v.len() == 0 {
        0
    } else {
        count_severity(v.drop_last(), s) + if v.last().severity == s {
            1nat
        } else {
            0nat
        }
    }
}

/// A count never exceeds the number of issues.
pub proof fn lemma_count_bound(v: Seq<IssueModel>, s: Severity)
    ensures
        count_severity(v, s) <= v.len(),
    decreases v.len(),
{
    if v.len() > 0 {
        lemma_count_bound(v.drop_last(), s);
    }
}

/// A count is positive exactly when some issue has that severity.
pub proof fn lemma_count_positive(v: Seq<IssueModel>, s: Severity)
    ensures
        (count_severity(v, s) > 0) == exists|i: int| 0 <= i < v.len() && #[trigger] v[i].severity
            == s,
    decreases v.len(),
{
    if v.len() > 0 {
        lemma_count_positive(v.drop_last(), s);
        if count_severity(v.drop_last(), s) > 0 {
            let i = choose|i: int| 0 <= i < v.drop_last().len() && #[trigger] v.drop_last()[i].severity == s;
            assert(v[i].severity == s);
        }
        if exists|i: int| 0 <= i < v.len() && #[trigger] v[i].severity == s {
            let i = choose|i: int| 0 <= i < v.len() && #[trigger] v[i].severity == s;
            if i < v.len() - 1 {
                assert(v.drop_last()[i].severity == s);
            }
        }
    }
}

impl ValidationReport {
    fn count(&self, s: Severity) -> (n: usize)
        ensures
            n == count_severity(issue_views(self.issues@), s),
    {
        let mut n: usize = 0;
        let mut i: usize = 0;
        while i < self.issues.len()
            invariant
                i <= self.issues@.len(),
                n == count_severity(issue_views(self.issues@).take(i as int), s),
            decreases self.issues@.len() - i,
        {
            proof {
                let v = issue_views(self.issues@);
                assert(v.take(i as int + 1).drop_last() == v.take(i as int));
                lemma_count_bound(v.take(i as int), s);
            }
            if self.issues[i].severity == s {
                n = n + 1;
            }
            i = i + 1;
        }
        assert(issue_views(self.issues@).take(self.issues@.len() as int) == issue_views(
            self.issues@,
        ));
        n
    }

    /// Whether any issue is an error.
    pub fn has_errors(&self) -> (b: bool)
        ensures
            b == exists|i: int| 0 <= i < self.issues@.len() && #[trigger] self.issues@[i].severity
                == Severity::Error,
    {
        proof {
            lemma_count_positive(issue_views(self.issues@), Severity::Error);
            assert forall|i: int| 0 <= i < self.issues@.len() implies issue_views(self.issues@)[i].severity
                == self.issues@[i].severity by {}
            if exists|i: int| 0 <= i < self.issues@.len() && #[trigger] self.issues@[i].severity
                == Severity::Error {
                let i = choose|i: int| 0 <= i < self.issues@.len() && #[trigger] self.issues@[i].severity
                    == Severity::Error;
                assert(issue_views(self.issues@)[i].severity == Severity::Error);
            }
        }
        self.count(Severity::Error) > 0
    }

    /// Number of error-level issues.
    pub fn error_count(&self) -> (n: usize)
        ensures
            n == count_severity(issue_views(self.issues@), Severity::Error),
    {
        self.count(Severity::Error)
    }

    /// Number of warning-level issues.
    pub fn warning_count(&self) -> (n: usize)
        ensures
            n == count_severity(issue_views(self.issues@), Severity::Warning),
    {
        self.count(Severity::Warning)
    }

    /// A compact summary line suitable for CLI output.
    pub fn summary(&self, feature_count: usize, group_count: usize) -> (r: String)
        ensures
            r@ == summary_text(
                feature_count as nat,
                group_count as nat,
                count_severity(issue_views(self.issues@), Severity::Error),
                count_severity(issue_views(self.issues@), Severity::Warning),
            ),
    {
        let mut r = owned("validated ");
        r.append(decimal_string(feature_count).as_str());
        r.append(" feature(s) and ");
        r.append(decimal_string(group_count).as_str());
        r.append(" group(s): ");
        r.append(decimal_string(self.error_count()).as_str());
        r.append(" error(s), ");
        r.append(decimal_string(self.warning_count()).as_str());
        r.append(" warning(s)");
        r
    }
}

/// `validated F feature(s) and G group(s): E error(s), W warning(s)`.
pub open spec fn summary_text(features: nat, groups: nat, errors: nat, warnings: nat) -> Seq<char> {
    "validated "@ + decimal(features) + " feature(s) and "@ + decimal(groups) + " group(s): "@
        + decimal(errors) + " error(s), "@ + decimal(warnings) + " warning(s)"@
}


/// Index of the first dependency with key `key`.
pub open spec fn dependency_index(ds: Seq<DependencyModel>, key: Seq<char>) -> Option<int>
    decreases ds.len(),
{
    if ds.len() == 0 {
        None
    } else if ds[0].key == key {
        Some(0)
    } else {
        match dependency_index(ds.drop_first(), key) {
            Some(i) => Some(i + 1),
            None => None,
        }
    }
}

/// A found dependency index is in range and holds the key.
pub proof fn lemma_dependency_index(ds: Seq<DependencyModel>, key: Seq<char>)
    ensures
        dependency_index(ds, key) matches Some(i) ==> 0 <= i < ds.len() && ds[i].key == key
            && forall|j: int| 0 <= j < i ==> ds[j].key != key,
        dependency_index(ds, key) is None ==> forall|j: int| 0 <= j < ds.len() ==> ds[j].key != key,
    decreases ds.len(),
{
    if ds.len() > 0 {
        lemma_dependency_index(ds.drop_first(), key);
        assert forall|j: int| 0 < j < ds.len() implies ds[j] == ds.drop_first()[j - 1] by {}
    }
}

/// Executable form of [`dependency_index`].
pub fn dependency_position(ds: &Vec<DependencyInfo>, key: &str) -> (r: Option<usize>)
    ensures
        match r {
            Some(i) => dependency_index(dependency_views(ds@), key@) == Some(i as int) && i
                < ds@.len(),
            None => dependency_index(dependency_views(ds@), key@) is None,
        },
{
    proof {
        lemma_dependency_index(dependency_views(ds@), key@);
    }
    let mut i: usize = 0;
    while i < ds.len()
        invariant
            i <= ds@.len(),
            forall|j: int| 0 <= j < i ==> ds@[j].key@ != key@,
        decreases ds@.len() - i,
    {
        proof {
            lemma_dependency_index(dependency_views(ds@), key@);
        }
        if str_eq(ds[i].key.as_str(), key) {
            assert(dependency_views(ds@)[i as int].key == key@);
            return Some(i);
        }
        i = i + 1;
    }
    proof {
        lemma_dependency_index(dependency_views(ds@), key@);
        assert forall|j: int| 0 <= j < ds@.len() implies dependency_views(ds@)[j].key != key@ by {
            assert(dependency_views(ds@)[j].key == ds@[j].key@);
        }
    }
    None
}

/// Whether `name` is an optional dependency of the manifest.
pub open spec fn optional_dependency(m: ManifestModel, name: Seq<char>) -> bool {
    match dependency_index(m.dependencies, name) {
        Some(i) => m.dependencies[i].optional,
        None => false,
    }
}

/// Whether `name` is a declared feature or an optional dependency.
pub open spec fn declared_or_optional(m: ManifestModel, name: Seq<char>) -> bool {
    feature_index(m.features, name) is Some || optional_dependency(m, name)
}

/// Whether metadata lacks a usable description.
pub open spec fn missing_description(md: MetadataModel) -> bool {
    match md.description {
        Some(d) => all_space(d),
        None => true,
    }
}

/// Whether a sensitive feature is default-enabled without acknowledgement.
pub open spec fn sensitive_default(f: FeatureModel) -> bool {
    f.default_enabled && (f.metadata.unstable || f.metadata.deprecated || !f.metadata.public)
        && !f.metadata.allow_default
}

/// Findings about a feature's own metadata.
pub open spec fn head_issues(f: FeatureModel) -> Seq<IssueModel> {
    (if !f.has_metadata {
        seq![
            error_issue(
                "missing-metadata"@,
                Some(f.name),
                "feature is defined in `[features]` but missing metadata; add an entry under `[package.metadata.feature-manifest]`."@,
            ),
        ]
    } else {
        Seq::empty()
    }) + (if missing_description(f.metadata) {
        seq![
            error_issue(
                "missing-description"@,
                Some(f.name),
                "feature metadata needs a non-empty `description`."@,
            ),
        ]
    } else {
        Seq::empty()
    }) + (if sensitive_default(f) {
        seq![
            error_issue(
                "sensitive-default"@,
                Some(f.name),
                "feature is enabled by default while marked unstable, deprecated, or private; set `allow_default = true` to acknowledge the default."@,
            ),
        ]
    } else {
        Seq::empty()
    })
}

/// One warning per unclassified reference of a feature.
pub open spec fn unknown_ref_issues(name: Seq<char>, refs: Seq<RefModel>) -> Seq<IssueModel>
    decreases refs.len(),
{
    if refs.len() == 0 {
        Seq::empty()
    } else {
        unknown_ref_issues(name, refs.drop_last()) + unknown_ref_issue(name, refs.last())
    }
}

/// The warning for one reference, if it is unclassified.
pub open spec fn unknown_ref_issue(name: Seq<char>, r: RefModel) -> Seq<IssueModel> {
    match r {
        RefModel::Unknown(raw) => seq![
            warning_issue(
                "unknown-reference"@,
                Some(name),
                "feature contains an unrecognized reference syntax: `"@ + raw + "`."@,
            ),
        ],
        _ => Seq::empty(),
    }
}

/// How a dependency reference is quoted in messages.
pub open spec fn dependency_reference_text(dep: Seq<char>, feature: Option<Seq<char>>, weak: bool) -> Seq<char> {
    match feature {
        Some(f) => "`"@ + dep + (if weak {
            "?/"@
        } else {
            "/"@
        }) + f + "`"@,
        None => "`dep:"@ + dep + "`"@,
    }
}

/// Findings about a `dep:` or dependency-feature reference made by `source`.
pub open spec fn dependency_issues(
    m: ManifestModel,
    source: Seq<char>,
    dep: Seq<char>,
    feature: Option<Seq<char>>,
    weak: bool,
) -> Seq<IssueModel> {
    match dependency_index(m.dependencies, dep) {
        Some(i) => if feature is None && !m.dependencies[i].optional {
            seq![
                error_issue(
                    "dependency-not-optional"@,
                    Some(source),
                    "`dep:"@ + dep + "` requires `"@ + dep + "` to be an optional dependency."@,
                ),
            ]
        } else if weak && !m.dependencies[i].optional {
            seq![
                error_issue(
                    "dependency-not-optional"@,
                    Some(source),
                    "`"@ + dep + "?/"@ + match feature {
                        Some(f) => f,
                        None => Seq::empty(),
                    } + "` requires `"@ + dep + "` to be optional."@,
                ),
            ]
        } else {
            Seq::empty()
        },
        None => seq![
            error_issue(
                "dependency-not-found"@,
                Some(source),
                dependency_reference_text(dep, feature, weak)
                    + " references a dependency that does not exist."@,
            ),
        ],
    }
}

/// Findings about a plain reference from `source` to `target`.
pub open spec fn plain_issues(m: ManifestModel, source: Seq<char>, public: bool, target: Seq<char>) -> Seq<IssueModel> {
    match feature_index(m.features, target) {
        Some(i) => if public && !m.features[i].metadata.public {
            seq![
                warning_issue(
                    "private-enabled-by-public"@,
                    Some(source),
                    "public feature enables private feature `"@ + target
                        + "`, which may surprise downstream users."@,
                ),
            ]
        } else {
            Seq::empty()
        },
        None => if optional_dependency(m, target) {
            Seq::empty()
        } else {
            seq![
                error_issue(
                    "unknown-feature-reference"@,
                    Some(source),
                    "`"@ + target + "` is not a declared feature or optional dependency."@,
                ),
            ]
        },
    }
}

/// Findings about one reference of a feature.
pub open spec fn ref_issues(m: ManifestModel, source: Seq<char>, public: bool, r: RefModel) -> Seq<IssueModel> {
    match r {
        RefModel::Dependency(name) => if m.dependencies.len() > 0 {
            dependency_issues(m, source, name, None, false)
        } else {
            Seq::empty()
        },
        RefModel::DependencyFeature(dep, feature, weak) => if m.dependencies.len() > 0 {
            dependency_issues(m, source, dep, Some(feature), weak)
        } else {
            Seq::empty()
        },
        RefModel::Feature(name) => plain_issues(m, source, public, name),
        RefModel::Unknown(_) => Seq::empty(),
    }
}

/// Findings about the references of a feature, in order.
pub open spec fn refs_issues(m: ManifestModel, source: Seq<char>, public: bool, refs: Seq<RefModel>) -> Seq<IssueModel>
    decreases refs.len(),
{
    if refs.len() == 0 {
        Seq::empty()
    } else {
        refs_issues(m, source, public, refs.drop_last()) + ref_issues(
            m,
            source,
            public,
            refs.last(),
        )
    }
}

/// All findings about one feature.
pub open spec fn feature_issues(m: ManifestModel, f: FeatureModel) -> Seq<IssueModel> {
    head_issues(f) + unknown_ref_issues(f.name, f.enables) + refs_issues(
        m,
        f.name,
        f.metadata.public,
        f.enables,
    )
}

/// All findings about a list of features, in order.
pub open spec fn features_issues(m: ManifestModel, fs: Seq<FeatureModel>) -> Seq<IssueModel>
    decreases fs.len(),
{
    if fs.len() == 0 {
        Seq::empty()
    } else {
        features_issues(m, fs.drop_last()) + feature_issues(m, fs.last())
    }
}

fn push_head_issues(f: &crate::model::Feature, issues: &mut Vec<Issue>)
    ensures
        issue_views(final(issues)@) == issue_views(old(issues)@) + head_issues(f@),
{
    let ghost start = issue_views(issues@);
    if !f.has_metadata {
        issues.push(Issue::error(
            "missing-metadata",
            Some(f.name.clone()),
            owned("feature is defined in `[features]` but missing metadata; add an entry under `[package.metadata.feature-manifest]`."),
        ));
    }
    let ghost after_first = issue_views(issues@);
    let missing = match &f.metadata.description {
        Some(d) => is_blank(d.as_str()),
        None => true,
    };
    if missing {
        issues.push(Issue::error(
            "missing-description",
            Some(f.name.clone()),
            owned("feature metadata needs a non-empty `description`."),
        ));
    }
    let ghost after_second = issue_views(issues@);
    if f.default_enabled && (f.metadata.unstable || f.metadata.deprecated || !f.metadata.public)
        && !f.metadata.allow_default {
        issues.push(Issue::error(
            "sensitive-default",
            Some(f.name.clone()),
            owned("feature is enabled by default while marked unstable, deprecated, or private; set `allow_default = true` to acknowledge the default."),
        ));
    }
    assert(issue_views(issues@) =~= issue_views(old(issues)@) + head_issues(f@));
}

fn push_unknown_ref_issues(name: &String, refs: &Vec<FeatureRef>, issues: &mut Vec<Issue>)
    ensures
        issue_views(final(issues)@) == issue_views(old(issues)@) + unknown_ref_issues(
            name@,
            crate::model::ref_views(refs@),
        ),
{
    let ghost start = issue_views(issues@);
    let ghost rs = crate::model::ref_views(refs@);
    let mut i: usize = 0;
    while i < refs.len()
        invariant
            i <= refs@.len(),
            rs == crate::model::ref_views(refs@),
            issue_views(issues@) == start + unknown_ref_issues(name@, rs.take(i as int)),
        decreases refs@.len() - i,
    {
        assert(rs.take(i as int + 1).drop_last() == rs.take(i as int));
        assert(rs.take(i as int + 1).last() == refs@[i as int]@);
        let ghost before = issue_views(issues@);
        match &refs[i] {
            FeatureRef::Unknown { raw } => {
                issues.push(Issue::warning(
                    "unknown-reference",
                    Some(name.clone()),
                    concat3("feature contains an unrecognized reference syntax: `", raw.as_str(), "`."),
                ));
            },
            _ => {},
        }
        assert(issue_views(issues@) =~= before + unknown_ref_issue(name@, refs@[i as int]@));
        assert(issue_views(issues@) =~= start + unknown_ref_issues(name@, rs.take(i as int + 1)));
        i = i + 1;
    }
    assert(rs.take(refs@.len() as int) == rs);
}

fn push_dependency_issues(
    m: &FeatureManifest,
    source: &str,
    dep: &String,
    feature: Option<&String>,
    weak: bool,
    issues: &mut Vec<Issue>,
)
    ensures
        issue_views(final(issues)@) == issue_views(old(issues)@) + dependency_issues(
            m@,
            source@,
            dep@,
            match feature {
                Some(f) => Some(f@),
                None => None,
            },
            weak,
        ),
{
    let ghost fv: Option<Seq<char>> = match feature {
        Some(f) => Some(f@),
        None => None,
    };
    match dependency_position(&m.dependencies, dep.as_str()) {
        Some(i) => {
            assert(m@.dependencies[i as int] == m.dependencies@[i as int]@);
            let optional = m.dependencies[i].optional;
            if feature.is_none() && !optional {
                let mut msg = concat5("`dep:", dep.as_str(), "` requires `", dep.as_str(), "` to be an optional dependency.");
                issues.push(Issue::error("dependency-not-optional", Some(owned(source)), msg));
            } else if weak && !optional {
                let f: &str = match feature {
                    Some(f) => f.as_str(),
                    None => "",
                };
                let mut msg = concat5("`", dep.as_str(), "?/", f, "` requires `");
                msg.append(dep.as_str());
                msg.append("` to be optional.");
                issues.push(Issue::error("dependency-not-optional", Some(owned(source)), msg));
            }
        },
        None => {
            let mut msg = match feature {
                Some(f) => concat5("`", dep.as_str(), if weak { "?/" } else { "/" }, f.as_str(), "`"),
                None => concat3("`dep:", dep.as_str(), "`"),
            };
            msg.append(" references a dependency that does not exist.");
            issues.push(Issue::error("dependency-not-found", Some(owned(source)), msg));
        },
    }
    assert(issue_views(issues@) =~= issue_views(old(issues)@) + dependency_issues(
        m@,
        source@,
        dep@,
        fv,
        weak,
    ));
}

fn push_plain_issues(
    m: &FeatureManifest,
    source: &String,
    public: bool,
    target: &String,
    issues: &mut Vec<Issue>,
)
    ensures
        issue_views(final(issues)@) == issue_views(old(issues)@) + plain_issues(
            m@,
            source@,
            public,
            target@,
        ),
{
    proof {
        crate::model::lemma_feature_index(m@.features, target@);
    }
    match m.feature(target.as_str()) {
        Some(t) => {
            if public && !t.metadata.public {
                issues.push(Issue::warning(
                    "private-enabled-by-public",
                    Some(source.clone()),
                    concat3(
                        "public feature enables private feature `",
                        target.as_str(),
                        "`, which may surprise downstream users.",
                    ),
                ));
            }
        },
        None => {
            let optional = match dependency_position(&m.dependencies, target.as_str()) {
                Some(i) => {
                    assert(m@.dependencies[i as int] == m.dependencies@[i as int]@);
                    m.dependencies[i].optional
                },
                None => false,
            };
            if !optional {
                issues.push(Issue::error(
                    "unknown-feature-reference",
                    Some(source.clone()),
                    concat3("`", target.as_str(), "` is not a declared feature or optional dependency."),
                ));
            }
        },
    }
    assert(issue_views(issues@) =~= issue_views(old(issues)@) + plain_issues(
        m@,
        source@,
        public,
        target@,
    ));
}

fn push_refs_issues(
    m: &FeatureManifest,
    source: &String,
    public: bool,
    refs: &Vec<FeatureRef>,
    issues: &mut Vec<Issue>,
)
    ensures
        issue_views(final(issues)@) == issue_views(old(issues)@) + refs_issues(
            m@,
            source@,
            public,
            crate::model::ref_views(refs@),
        ),
{
    let ghost start = issue_views(issues@);
    let ghost rs = crate::model::ref_views(refs@);
    let mut i: usize = 0;
    while i < refs.len()
        invariant
            i <= refs@.len(),
            rs == crate::model::ref_views(refs@),
            issue_views(issues@) == start + refs_issues(m@, source@, public, rs.take(i as int)),
        decreases refs@.len() - i,
    {
        assert(rs.take(i as int + 1).drop_last() == rs.take(i as int));
        assert(rs.take(i as int + 1).last() == refs@[i as int]@);
        let ghost before = issue_views(issues@);
        let has_dependencies = m.dependencies.len() > 0;
        match &refs[i] {
            FeatureRef::Dependency { name } => {
                if has_dependencies {
                    push_dependency_issues(m, source.as_str(), name, None, false, issues);
                }
            },
            FeatureRef::DependencyFeature { dependency, feature, weak } => {
                if has_dependencies {
                    push_dependency_issues(m, source.as_str(), dependency, Some(feature), *weak, issues);
                }
            },
            FeatureRef::Feature { name } => {
                push_plain_issues(m, source, public, name, issues);
            },
            FeatureRef::Unknown { .. } => {},
        }
        assert(issue_views(issues@) =~= before + ref_issues(m@, source@, public, refs@[i as int]@));
        assert(issue_views(issues@) =~= start + refs_issues(m@, source@, public, rs.take(i as int + 1)));
        i = i + 1;
    }
    assert(rs.take(refs@.len() as int) == rs);
}

fn push_features_issues(m: &FeatureManifest, issues: &mut Vec<Issue>)
    ensures
        issue_views(final(issues)@) == issue_views(old(issues)@) + features_issues(
            m@,
            m@.features,
        ),
{
    let ghost start = issue_views(issues@);
    let ghost fs = m@.features;
    let mut i: usize = 0;
    while i < m.features.len()
        invariant
            i <= m.features@.len(),
            fs == m@.features,
            issue_views(issues@) == start + features_issues(m@, fs.take(i as int)),
        decreases m.features@.len() - i,
    {
        assert(fs.take(i as int + 1).drop_last() == fs.take(i as int));
        assert(fs.take(i as int + 1).last() == m.features@[i as int]@);
        let ghost before = issue_views(issues@);
        let f = &m.features[i];
        push_head_issues(f, issues);
        push_unknown_ref_issues(&f.name, &f.enables, issues);
        push_refs_issues(m, &f.name, f.metadata.public, &f.enables, issues);
        assert(issue_views(issues@) =~= before + feature_issues(m@, f@));
        assert(issue_views(issues@) =~= start + features_issues(m@, fs.take(i as int + 1)));
        i = i + 1;
    }
    assert(fs.take(m.features@.len() as int) == fs);
}

} // verus!

verus! {

/// One `feature-cycle` error per name, each quoting the whole cycle.
pub open spec fn cycle_name_issues(names: Seq<Seq<char>>, summary: Seq<char>) -> Seq<IssueModel> {
    names.map_values(
        |n: Seq<char>|
            error_issue(
                "feature-cycle"@,
                Some(n),
                "feature is part of a local cycle: "@ + summary + "."@,
            ),
    )
}

/// Findings about the detected cycles: for each cycle, one error per distinct
/// feature on it, in name order.
pub open spec fn cycles_issues(cs: Seq<Seq<Seq<char>>>) -> Seq<IssueModel>
    decreases cs.len(),
{
    if cs.len() == 0 {
        Seq::empty()
    } else {
        cycles_issues(cs.drop_last()) + cycle_name_issues(
            sorted_set(cs.last()),
            join(cs.last(), " -> "@),
        )
    }
}

/// One `unknown-metadata` error per metadata entry naming no declared feature.
pub open spec fn metadata_only_issues(entries: Seq<(Seq<char>, MetadataModel)>) -> Seq<IssueModel> {
    entries.map_values(
        |e: (Seq<char>, MetadataModel)|
            error_issue(
                "unknown-metadata"@,
                Some(e.0),
                "metadata exists for a feature that is not declared in `[features]`."@,
            ),
    )
}

/// Findings about one entry of `features.default`.
pub open spec fn default_member_issues(m: ManifestModel, r: RefModel) -> Seq<IssueModel> {
    match r {
        RefModel::Feature(name) => if !declared_or_optional(m, name) {
            seq![
                error_issue(
                    "unknown-default-member"@,
                    Some(name),
                    "entry appears in `features.default` but is not a declared feature or optional dependency."@,
                ),
            ]
        } else {
            Seq::empty()
        },
        RefModel::Dependency(name) => if m.dependencies.len() > 0 {
            dependency_issues(m, "default"@, name, None, false)
        } else {
            Seq::empty()
        },
        RefModel::DependencyFeature(dep, feature, weak) => if m.dependencies.len() > 0 {
            dependency_issues(m, "default"@, dep, Some(feature), weak)
        } else {
            Seq::empty()
        },
        RefModel::Unknown(raw) => seq![
            warning_issue(
                "unknown-default-reference"@,
                Some(raw),
                "default feature set contains an unrecognized reference syntax."@,
            ),
        ],
    }
}

/// Findings about the entries of `features.default`, in order.
pub open spec fn defaults_issues(m: ManifestModel, rs: Seq<RefModel>) -> Seq<IssueModel>
    decreases rs.len(),
{
    if rs.len() == 0 {
        Seq::empty()
    } else {
        defaults_issues(m, rs.drop_last()) + default_member_issues(m, rs.last())
    }
}

/// Whether `name` is a declared, default-enabled feature.
pub open spec fn default_enabled_feature(m: ManifestModel, name: Seq<char>) -> bool {
    match feature_index(m.features, name) {
        Some(i) => m.features[i].default_enabled,
        None => false,
    }
}

/// Findings about one group member, given the members listed before it.
pub open spec fn member_issues(m: ManifestModel, group: Seq<char>, earlier: Seq<Seq<char>>, member: Seq<char>) -> Seq<IssueModel> {
    (if earlier.contains(member) {
        seq![
            error_issue(
                "duplicate-group-member"@,
                Some(group),
                "group includes `"@ + member + "` more than once."@,
            ),
        ]
    } else {
        Seq::empty()
    }) + (if feature_index(m.features, member) is None {
        seq![
            error_issue(
                "unknown-group-member"@,
                Some(group),
                "group references missing feature `"@ + member + "`."@,
            ),
        ]
    } else {
        Seq::empty()
    })
}

/// Findings about the members of a group, in order.
pub open spec fn members_issues(m: ManifestModel, group: Seq<char>, ms: Seq<Seq<char>>) -> Seq<IssueModel>
    decreases ms.len(),
{
    if ms.len() == 0 {
        Seq::empty()
    } else {
        members_issues(m, group, ms.drop_last()) + member_issues(
            m,
            group,
            ms.drop_last(),
            ms.last(),
        )
    }
}

/// The members that are declared, default-enabled features, in order (repeats kept).
pub open spec fn default_names(m: ManifestModel, ms: Seq<Seq<char>>) -> Seq<Seq<char>>
    decreases ms.len(),
{
    if ms.len() == 0 {
        Seq::empty()
    } else {
        default_names(m, ms.drop_last()) + if default_enabled_feature(m, ms.last()) {
            seq![ms.last()]
        } else {
            Seq::empty()
        }
    }
}

/// Each name between backticks.
pub open spec fn quoted(ms: Seq<Seq<char>>) -> Seq<Seq<char>> {
    ms.map_values(|x: Seq<char>| "`"@ + x + "`"@)
}

/// All findings about one group.
pub open spec fn group_issues(m: ManifestModel, g: GroupModel) -> Seq<IssueModel> {
    (if g.members.len() < 2 {
        seq![
            warning_issue(
                "small-group"@,
                Some(g.name),
                "groups are most useful with at least two members."@,
            ),
        ]
    } else {
        Seq::empty()
    }) + members_issues(m, g.name, g.members) + (if g.mutually_exclusive && default_names(
        m,
        g.members,
    ).len() > 1 {
        seq![
            error_issue(
                "mutually-exclusive-default"@,
                Some(g.name),
                "mutually exclusive group has multiple default-enabled members: "@ + join(
                    quoted(default_names(m, g.members)),
                    ", "@,
                ) + "."@,
            ),
        ]
    } else {
        Seq::empty()
    })
}

/// Findings about a list of groups, in order.
pub open spec fn groups_issues(m: ManifestModel, gs: Seq<GroupModel>) -> Seq<IssueModel>
    decreases gs.len(),
{
    if gs.len() == 0 {
        Seq::empty()
    } else {
        groups_issues(m, gs.drop_last()) + group_issues(m, gs.last())
    }
}

/// Every finding before lint levels are applied: features, cycles, stale
/// metadata, default members, then groups.
pub open spec fn raw_issues(m: ManifestModel) -> Seq<IssueModel> {
    features_issues(m, m.features) + cycles_issues(crate::cycles::feature_cycles(m.features))
        + metadata_only_issues(m.metadata_only) + defaults_issues(m, m.default_members)
        + groups_issues(m, m.groups)
}

/// The level a preset gives a lint code, if any.
pub open spec fn preset_level(preset: Option<LintPreset>, code: Seq<char>) -> Option<LintLevel> {
    match preset {
        Some(LintPreset::Adopt) => if code == "missing-metadata"@ || code == "missing-description"@
            || code == "unknown-metadata"@ || code == "small-group"@ || code
            == "private-enabled-by-public"@ {
            Some(LintLevel::Warn)
        } else {
            None
        },
        Some(LintPreset::Strict) => if code == "unknown-reference"@ || code
            == "unknown-default-reference"@ || code == "small-group"@ || code
            == "private-enabled-by-public"@ {
            Some(LintLevel::Deny)
        } else {
            None
        },
        None => None,
    }
}

/// The level in force for a code: a CLI override, else a manifest override,
/// else the CLI preset, else the manifest preset.
pub open spec fn effective_level(
    cli: Seq<(Seq<char>, LintLevel)>,
    cli_preset: Option<LintPreset>,
    m: ManifestModel,
    code: Seq<char>,
) -> Option<LintLevel> {
    match key_value(cli, code) {
        Some(l) => Some(l),
        None => match key_value(m.lint_overrides, code) {
            Some(l) => Some(l),
            None => match preset_level(cli_preset, code) {
                Some(l) => Some(l),
                None => preset_level(m.lint_preset, code),
            },
        },
    }
}

/// An issue under a level: dropped when allowed, else given the level's severity.
pub open spec fn leveled(i: IssueModel, level: Option<LintLevel>) -> Seq<IssueModel> {
    match level {
        Some(LintLevel::Allow) => Seq::empty(),
        Some(LintLevel::Warn) => seq![IssueModel { severity: Severity::Warning, ..i }],
        Some(LintLevel::Deny) => seq![IssueModel { severity: Severity::Error, ..i }],
        None => seq![i],
    }
}

/// The issues with lint levels applied, in order.
pub open spec fn apply_levels(
    issues: Seq<IssueModel>,
    cli: Seq<(Seq<char>, LintLevel)>,
    cli_preset: Option<LintPreset>,
    m: ManifestModel,
) -> Seq<IssueModel>
    decreases issues.len(),
{
    if issues.len() == 0 {
        Seq::empty()
    } else {
        apply_levels(issues.drop_last(), cli, cli_preset, m) + leveled(
            issues.last(),
            effective_level(cli, cli_preset, m, issues.last().code),
        )
    }
}

/// What validation reports for a manifest under the given CLI overrides and preset.
pub open spec fn validation_issues(
    m: ManifestModel,
    cli: Seq<(Seq<char>, LintLevel)>,
    cli_preset: Option<LintPreset>,
) -> Seq<IssueModel> {
    apply_levels(raw_issues(m), cli, cli_preset, m)
}

} // verus!

verus! {

fn push_cycles_issues(cycles: &Vec<Vec<String>>, issues: &mut Vec<Issue>)
    ensures
        issue_views(final(issues)@) == issue_views(old(issues)@) + cycles_issues(
            crate::cycles::path_views(cycles@),
        ),
{
    let ghost start = issue_views(issues@);
    let ghost cs = crate::cycles::path_views(cycles@);
    let mut i: usize = 0;
    while i < cycles.len()
        invariant
            i <= cycles@.len(),
            cs == crate::cycles::path_views(cycles@),
            issue_views(issues@) == start + cycles_issues(cs.take(i as int)),
        decreases cycles@.len() - i,
    {
        assert(cs.take(i as int + 1).drop_last() == cs.take(i as int));
        assert(cs.take(i as int + 1).last() == views(cycles@[i as int]@));
        let ghost before = issue_views(issues@);
        let summary = join_strings(&cycles[i], " -> ");
        let names = sorted_set_exec(&cycles[i]);
        let ghost target = cycle_name_issues(views(names@), summary@);
        let mut k: usize = 0;
        while k < names.len()
            invariant
                k <= names@.len(),
                target == cycle_name_issues(views(names@), summary@),
                issue_views(issues@) == before + target.take(k as int),
            decreases names@.len() - k,
        {
            let ghost prev = issue_views(issues@);
            issues.push(Issue::error(
                "feature-cycle",
                Some(names[k].clone()),
                concat3("feature is part of a local cycle: ", summary.as_str(), "."),
            ));
            assert(target.take(k as int + 1) =~= target.take(k as int).push(target[k as int]));
            assert(issue_views(issues@) =~= prev.push(target[k as int]));
            k = k + 1;
        }
        assert(target.take(names@.len() as int) =~= target);
        assert(issue_views(issues@) =~= start + cycles_issues(cs.take(i as int + 1)));
        i = i + 1;
    }
    assert(cs.take(cycles@.len() as int) == cs);
}

fn push_metadata_only_issues(m: &FeatureManifest, issues: &mut Vec<Issue>)
    ensures
        issue_views(final(issues)@) == issue_views(old(issues)@) + metadata_only_issues(
            m@.metadata_only,
        ),
{
    let ghost start = issue_views(issues@);
    let ghost target = metadata_only_issues(m@.metadata_only);
    let mut i: usize = 0;
    while i < m.metadata_only.len()
        invariant
            i <= m.metadata_only@.len(),
            target == metadata_only_issues(m@.metadata_only),
            issue_views(issues@) == start + target.take(i as int),
        decreases m.metadata_only@.len() - i,
    {
        let ghost prev = issue_views(issues@);
        issues.push(Issue::error(
            "unknown-metadata",
            Some(m.metadata_only[i].0.clone()),
            owned("metadata exists for a feature that is not declared in `[features]`."),
        ));
        assert(target.take(i as int + 1) =~= target.take(i as int).push(target[i as int]));
        assert(issue_views(issues@) =~= prev.push(target[i as int]));
        i = i + 1;
    }
    assert(target.take(m.metadata_only@.len() as int) =~= target);
}

/// Whether `name` is a declared feature or an optional dependency.
fn is_declared_or_optional(m: &FeatureManifest, name: &str) -> (b: bool)
    ensures
        b == declared_or_optional(m@, name@),
{
    match m.feature(name) {
        Some(_) => true,
        None => match dependency_position(&m.dependencies, name) {
            Some(i) => {
                assert(m@.dependencies[i as int] == m.dependencies@[i as int]@);
                m.dependencies[i].optional
            },
            None => false,
        },
    }
}

fn push_defaults_issues(m: &FeatureManifest, issues: &mut Vec<Issue>)
    ensures
        issue_views(final(issues)@) == issue_views(old(issues)@) + defaults_issues(
            m@,
            m@.default_members,
        ),
{
    let ghost start = issue_views(issues@);
    let ghost rs = m@.default_members;
    let has_dependencies = m.dependencies.len() > 0;
    let mut i: usize = 0;
    while i < m.default_members.len()
        invariant
            i <= m.default_members@.len(),
            rs == m@.default_members,
            has_dependencies == (m@.dependencies.len() > 0),
            issue_views(issues@) == start + defaults_issues(m@, rs.take(i as int)),
        decreases m.default_members@.len() - i,
    {
        assert(rs.take(i as int + 1).drop_last() == rs.take(i as int));
        assert(rs.take(i as int + 1).last() == m.default_members@[i as int]@);
        let ghost before = issue_views(issues@);
        match &m.default_members[i] {
            FeatureRef::Feature { name } => {
                if !is_declared_or_optional(m, name.as_str()) {
                    issues.push(Issue::error(
                        "unknown-default-member",
                        Some(name.clone()),
                        owned("entry appears in `features.default` but is not a declared feature or optional dependency."),
                    ));
                }
            },
            FeatureRef::Dependency { name } => {
                if has_dependencies {
                    push_dependency_issues(m, "default", name, None, false, issues);
                }
            },
            FeatureRef::DependencyFeature { dependency, feature, weak } => {
                if has_dependencies {
                    push_dependency_issues(m, "default", dependency, Some(feature), *weak, issues);
                }
            },
            FeatureRef::Unknown { raw } => {
                issues.push(Issue::warning(
                    "unknown-default-reference",
                    Some(raw.clone()),
                    owned("default feature set contains an unrecognized reference syntax."),
                ));
            },
        }
        proof {
            reveal_strlit("default");
        }
        assert(issue_views(issues@) =~= before + default_member_issues(m@, m.default_members@[i as int]@));
        assert(issue_views(issues@) =~= start + defaults_issues(m@, rs.take(i as int + 1)));
        i = i + 1;
    }
    assert(rs.take(m.default_members@.len() as int) == rs);
}

} // verus!

verus! {

/// Whether `v[..k]` holds `s`.
fn contains_before(v: &Vec<String>, k: usize, s: &str) -> (b: bool)
    requires
        k <= v@.len(),
    ensures
        b == views(v@).take(k as int).contains(s@),
{
    let mut i: usize = 0;
    while i < k
        invariant
            i <= k <= v@.len(),
            forall|j: int| 0 <= j < i ==> v@[j]@ != s@,
        decreases k - i,
    {
        if str_eq(v[i].as_str(), s) {
            assert(views(v@).take(k as int)[i as int] == s@);
            return true;
        }
        i = i + 1;
    }
    assert forall|j: int| 0 <= j < k implies views(v@).take(k as int)[j] != s@ by {
        assert(views(v@).take(k as int)[j] == v@[j]@);
    }
    false
}

/// Each name between backticks.
fn quote_names(v: &Vec<String>) -> (r: Vec<String>)
    ensures
        views(r@) == quoted(views(v@)),
{
    let mut r: Vec<String> = Vec::new();
    let mut i: usize = 0;
    while i < v.len()
        invariant
            i <= v@.len(),
            views(r@) == quoted(views(v@)).take(i as int),
        decreases v@.len() - i,
    {
        let ghost before = r@;
        let q = concat3("`", v[i].as_str(), "`");
        assert(q@ == quoted(views(v@))[i as int]);
        r.push(q);
        assert(views(r@) =~= views(before).push(q@));
        assert(views(r@) =~= quoted(views(v@)).take(i as int + 1));
        i = i + 1;
    }
    assert(quoted(views(v@)).take(v@.len() as int) =~= quoted(views(v@)));
    r
}

fn push_group_issues(m: &FeatureManifest, g: &crate::model::FeatureGroup, issues: &mut Vec<Issue>)
    ensures
        issue_views(final(issues)@) == issue_views(old(issues)@) + group_issues(m@, g@),
{
    let ghost start = issue_views(issues@);
    if g.members.len() < 2 {
        issues.push(Issue::warning(
            "small-group",
            Some(g.name.clone()),
            owned("groups are most useful with at least two members."),
        ));
    }
    let ghost after_small = issue_views(issues@);
    let ghost ms = views(g.members@);
    let ghost small_part: Seq<IssueModel> = if g@.members.len() < 2 {
        seq![
            warning_issue(
                "small-group"@,
                Some(g@.name),
                "groups are most useful with at least two members."@,
            ),
        ]
    } else {
        Seq::empty()
    };
    assert(after_small =~= start + small_part);
    let mut defaults: Vec<String> = Vec::new();
    let mut k: usize = 0;
    while k < g.members.len()
        invariant
            k <= g.members@.len(),
            ms == views(g.members@),
            issue_views(issues@) == after_small + members_issues(m@, g.name@, ms.take(k as int)),
            views(defaults@) == default_names(m@, ms.take(k as int)),
        decreases g.members@.len() - k,
    {
        assert(ms.take(k as int + 1).drop_last() == ms.take(k as int));
        assert(ms.take(k as int + 1).last() == g.members@[k as int]@);
        let ghost before = issue_views(issues@);
        let ghost defaults_before = defaults@;
        let member = &g.members[k];
        if contains_before(&g.members, k, member.as_str()) {
            issues.push(Issue::error(
                "duplicate-group-member",
                Some(g.name.clone()),
                concat3("group includes `", member.as_str(), "` more than once."),
            ));
        }
        let ghost after_dup = issue_views(issues@);
        proof {
            crate::model::lemma_feature_index(m@.features, member@);
        }
        match m.feature(member.as_str()) {
            None => {
                issues.push(Issue::error(
                    "unknown-group-member",
                    Some(g.name.clone()),
                    concat3("group references missing feature `", member.as_str(), "`."),
                ));
            },
            Some(f) => {
                if f.default_enabled {
                    defaults.push(member.clone());
                }
            },
        }
        assert(issue_views(issues@) =~= before + member_issues(
            m@,
            g.name@,
            ms.take(k as int),
            member@,
        ));
        assert(issue_views(issues@) =~= after_small + members_issues(
            m@,
            g.name@,
            ms.take(k as int + 1),
        ));
        assert(views(defaults@) =~= default_names(m@, ms.take(k as int + 1)));
        k = k + 1;
    }
    assert(ms.take(g.members@.len() as int) == ms);
    let ghost after_members = issue_views(issues@);
    if g.mutually_exclusive && defaults.len() > 1 {
        let list = join_strings(&quote_names(&defaults), ", ");
        issues.push(Issue::error(
            "mutually-exclusive-default",
            Some(g.name.clone()),
            concat3("mutually exclusive group has multiple default-enabled members: ", list.as_str(), "."),
        ));
    }
    let ghost last_part: Seq<IssueModel> = if g@.mutually_exclusive && default_names(m@, ms).len() > 1 {
        seq![
            error_issue(
                "mutually-exclusive-default"@,
                Some(g@.name),
                "mutually exclusive group has multiple default-enabled members: "@ + join(
                    quoted(default_names(m@, ms)),
                    ", "@,
                ) + "."@,
            ),
        ]
    } else {
        Seq::empty()
    };
    assert(issue_views(issues@) =~= after_members + last_part);
    assert(group_issues(m@, g@) == small_part + members_issues(m@, g@.name, ms) + last_part);
    assert(issue_views(issues@) =~= start + group_issues(m@, g@));
}

fn push_groups_issues(m: &FeatureManifest, issues: &mut Vec<Issue>)
    ensures
        issue_views(final(issues)@) == issue_views(old(issues)@) + groups_issues(m@, m@.groups),
{
    let ghost start = issue_views(issues@);
    let ghost gs = m@.groups;
    let mut i: usize = 0;
    while i < m.groups.len()
        invariant
            i <= m.groups@.len(),
            gs == m@.groups,
            issue_views(issues@) == start + groups_issues(m@, gs.take(i as int)),
        decreases m.groups@.len() - i,
    {
        assert(gs.take(i as int + 1).drop_last() == gs.take(i as int));
        assert(gs.take(i as int + 1).last() == m.groups@[i as int]@);
        push_group_issues(m, &m.groups[i], issues);
        assert(issue_views(issues@) =~= start + groups_issues(m@, gs.take(i as int + 1)));
        i = i + 1;
    }
    assert(gs.take(m.groups@.len() as int) == gs);
}

} // verus!

verus! {

/// Executable form of [`preset_level`].
fn preset_level_of(preset: Option<LintPreset>, code: &str) -> (r: Option<LintLevel>)
    ensures
        r == preset_level(preset, code@),
{
    match preset {
        Some(LintPreset::Adopt) => {
            if str_eq(code, "missing-metadata") || str_eq(code, "missing-description") || str_eq(
                code,
                "unknown-metadata",
            ) || str_eq(code, "small-group") || str_eq(code, "private-enabled-by-public") {
                Some(LintLevel::Warn)
            } else {
                None
            }
        },
        Some(LintPreset::Strict) => {
            if str_eq(code, "unknown-reference") || str_eq(code, "unknown-default-reference")
                || str_eq(code, "small-group") || str_eq(code, "private-enabled-by-public") {
                Some(LintLevel::Deny)
            } else {
                None
            }
        },
        None => None,
    }
}

/// Executable form of [`effective_level`].
fn level_for(options: &ValidateOptions, m: &FeatureManifest, code: &str) -> (r: Option<LintLevel>)
    ensures
        r == effective_level(pairs(options.cli_lints@), options.cli_preset, m@, code@),
{
    match key_get(&options.cli_lints, code) {
        Some(l) => Some(l),
        None => match key_get(&m.lint_overrides, code) {
            Some(l) => Some(l),
            None => match preset_level_of(options.cli_preset, code) {
                Some(l) => Some(l),
                None => preset_level_of(m.lint_preset, code),
            },
        },
    }
}

/// Applies CLI overrides, manifest overrides, and presets to each issue.
fn apply_lint_overrides(issues: &Vec<Issue>, m: &FeatureManifest, options: &ValidateOptions) -> (r: Vec<Issue>)
    ensures
        issue_views(r@) == apply_levels(
            issue_views(issues@),
            pairs(options.cli_lints@),
            options.cli_preset,
            m@,
        ),
{
    let ghost cli = pairs(options.cli_lints@);
    let ghost all = issue_views(issues@);
    let mut r: Vec<Issue> = Vec::new();
    let mut i: usize = 0;
    while i < issues.len()
        invariant
            i <= issues@.len(),
            cli == pairs(options.cli_lints@),
            all == issue_views(issues@),
            issue_views(r@) == apply_levels(all.take(i as int), cli, options.cli_preset, m@),
        decreases issues@.len() - i,
    {
        assert(all.take(i as int + 1).drop_last() == all.take(i as int));
        assert(all.take(i as int + 1).last() == issues@[i as int]@);
        let ghost before = issue_views(r@);
        let issue = &issues[i];
        let level = level_for(options, m, issue.code);
        let severity = match level {
            Some(LintLevel::Warn) => Severity::Warning,
            Some(LintLevel::Deny) => Severity::Error,
            _ => issue.severity,
        };
        match level {
            Some(LintLevel::Allow) => {},
            _ => {
                r.push(Issue {
                    severity,
                    default_severity: issue.default_severity,
                    code: issue.code,
                    feature: crate::model::copy_opt(&issue.feature),
                    message: issue.message.clone(),
                });
            },
        }
        assert(issue_views(r@) =~= before + leveled(issue@, level));
        i = i + 1;
    }
    assert(all.take(issues@.len() as int) == all);
    r
}

/// Validates a manifest with CLI lint overrides applied on top of manifest config.
pub fn validate_with_options(manifest: &FeatureManifest, options: &ValidateOptions) -> (r: ValidationReport)
    ensures
        issue_views(r.issues@) == validation_issues(
            manifest@,
            pairs(options.cli_lints@),
            options.cli_preset,
        ),
{
    let mut issues: Vec<Issue> = Vec::new();
    push_features_issues(manifest, &mut issues);
    let cycles = crate::cycles::detect_feature_cycles(manifest);
    push_cycles_issues(&cycles, &mut issues);
    push_metadata_only_issues(manifest, &mut issues);
    push_defaults_issues(manifest, &mut issues);
    push_groups_issues(manifest, &mut issues);
    assert(issue_views(issues@) =~= raw_issues(manifest@));
    ValidationReport { issues: apply_lint_overrides(&issues, manifest, options) }
}

/// Validates a manifest for missing docs, stale metadata, and risky defaults.
pub fn validate(manifest: &FeatureManifest) -> (r: ValidationReport)
    ensures
        issue_views(r.issues@) == validation_issues(manifest@, Seq::empty(), None),
{
    let options = ValidateOptions::new();
    assert(pairs(options.cli_lints@) =~= Seq::<(Seq<char>, LintLevel)>::empty());
    validate_with_options(manifest, &options)
}

} // verus!

verus! {

/// A lint level given on the command line wins over the manifest's override
/// and both presets; a manifest override wins over the presets; the command
/// line's preset wins over the manifest's.
pub proof fn law_override_precedence(
    cli: Seq<(Seq<char>, LintLevel)>,
    cli_preset: Option<LintPreset>,
    m: ManifestModel,
    code: Seq<char>,
)
    ensures
        key_value(cli, code) matches Some(l) ==> effective_level(cli, cli_preset, m, code) == Some(l),
        key_value(cli, code) is None ==> match key_value(m.lint_overrides, code) {
            Some(l) => effective_level(cli, cli_preset, m, code) == Some(l),
            None => match preset_level(cli_preset, code) {
                Some(l) => effective_level(cli, cli_preset, m, code) == Some(l),
                None => effective_level(cli, cli_preset, m, code) == preset_level(m.lint_preset, code),
            },
        },
{
}

/// Applying levels to issues: an allowed code disappears, and a code set to
/// `warn` or `deny` gets that severity; issues are never added.
pub proof fn lemma_apply_levels(
    issues: Seq<IssueModel>,
    cli: Seq<(Seq<char>, LintLevel)>,
    cli_preset: Option<LintPreset>,
    m: ManifestModel,
)
    ensures
        apply_levels(issues, cli, cli_preset, m).len() <= issues.len(),
        forall|j: int|
            0 <= j < apply_levels(issues, cli, cli_preset, m).len() ==> effective_level(
                cli,
                cli_preset,
                m,
                #[trigger] apply_levels(issues, cli, cli_preset, m)[j].code,
            ) != Some(LintLevel::Allow),
        forall|j: int|
            0 <= j < apply_levels(issues, cli, cli_preset, m).len() && effective_level(
                cli,
                cli_preset,
                m,
                #[trigger] apply_levels(issues, cli, cli_preset, m)[j].code,
            ) == Some(LintLevel::Warn) ==> apply_levels(issues, cli, cli_preset, m)[j].severity
                == Severity::Warning,
        forall|j: int|
            0 <= j < apply_levels(issues, cli, cli_preset, m).len() && effective_level(
                cli,
                cli_preset,
                m,
                #[trigger] apply_levels(issues, cli, cli_preset, m)[j].code,
            ) == Some(LintLevel::Deny) ==> apply_levels(issues, cli, cli_preset, m)[j].severity
                == Severity::Error,
    decreases issues.len(),
{
    if issues.len() > 0 {
        lemma_apply_levels(issues.drop_last(), cli, cli_preset, m);
        let prev = apply_levels(issues.drop_last(), cli, cli_preset, m);
        let tail = leveled(issues.last(), effective_level(cli, cli_preset, m, issues.last().code));
        let all = apply_levels(issues, cli, cli_preset, m);
        assert(all == prev + tail);
        assert forall|j: int| prev.len() <= j < all.len() implies all[j] == tail[j - prev.len()] by {}
        assert forall|j: int| 0 <= j < prev.len() implies all[j] == prev[j] by {}
    }
}

/// A lint set to `allow` (on the command line, in the manifest, or by a
/// preset) reports nothing.
pub proof fn law_allowed_lint_is_silent(
    m: ManifestModel,
    cli: Seq<(Seq<char>, LintLevel)>,
    cli_preset: Option<LintPreset>,
    code: Seq<char>,
)
    requires
        effective_level(cli, cli_preset, m, code) == Some(LintLevel::Allow),
    ensures
        forall|j: int|
            0 <= j < validation_issues(m, cli, cli_preset).len() ==> (#[trigger] validation_issues(
                m,
                cli,
                cli_preset,
            )[j]).code != code,
{
    lemma_apply_levels(raw_issues(m), cli, cli_preset, m);
}

/// A lint set to `warn` reports warnings and one set to `deny` reports errors.
pub proof fn law_level_sets_severity(
    m: ManifestModel,
    cli: Seq<(Seq<char>, LintLevel)>,
    cli_preset: Option<LintPreset>,
    code: Seq<char>,
)
    ensures
        effective_level(cli, cli_preset, m, code) == Some(LintLevel::Warn) ==> forall|j: int|
            0 <= j < validation_issues(m, cli, cli_preset).len() && (#[trigger] validation_issues(
                m,
                cli,
                cli_preset,
            )[j]).code == code ==> validation_issues(m, cli, cli_preset)[j].severity
                == Severity::Warning,
        effective_level(cli, cli_preset, m, code) == Some(LintLevel::Deny) ==> forall|j: int|
            0 <= j < validation_issues(m, cli, cli_preset).len() && (#[trigger] validation_issues(
                m,
                cli,
                cli_preset,
            )[j]).code == code ==> validation_issues(m, cli, cli_preset)[j].severity
                == Severity::Error,
        validation_issues(m, cli, cli_preset).len() <= raw_issues(m).len(),
{
    lemma_apply_levels(raw_issues(m), cli, cli_preset, m);
}

/// Without any override or preset in force, validation reports every finding
/// with its default severity.
pub proof fn law_no_overrides_reports_all(
    m: ManifestModel,
    cli: Seq<(Seq<char>, LintLevel)>,
    cli_preset: Option<LintPreset>,
)
    requires
        forall|c: Seq<char>| #[trigger] effective_level(cli, cli_preset, m, c) is None,
    ensures
        validation_issues(m, cli, cli_preset) == raw_issues(m),
{
    lemma_apply_none(raw_issues(m), cli, cli_preset, m);
}

/// Levels that are all absent leave issues unchanged.
pub proof fn lemma_apply_none(
    issues: Seq<IssueModel>,
    cli: Seq<(Seq<char>, LintLevel)>,
    cli_preset: Option<LintPreset>,
    m: ManifestModel,
)
    requires
        forall|c: Seq<char>| #[trigger] effective_level(cli, cli_preset, m, c) is None,
    ensures
        apply_levels(issues, cli, cli_preset, m) == issues,
    decreases issues.len(),
{
    if issues.len() > 0 {
        lemma_apply_none(issues.drop_last(), cli, cli_preset, m);
        assert(effective_level(cli, cli_preset, m, issues.last().code) is None);
        assert(issues.drop_last() + seq![issues.last()] =~= issues);
    }
}

/// A report has errors exactly when its error count is positive.
pub proof fn law_has_errors_iff_errors(v: Seq<IssueModel>)
    ensures
        (count_severity(v, Severity::Error) > 0) == exists|i: int|
            0 <= i < v.len() && #[trigger] v[i].severity == Severity::Error,
{
    lemma_count_positive(v, Severity::Error);
}

/// Whether every issue carries a lint code of the registry.
pub open spec fn codes_known(v: Seq<IssueModel>) -> bool {
    forall|k: int| 0 <= k < v.len() ==> known_codes().contains(#[trigger] v[k].code)
}

/// Each lint code of the registry is known.
pub proof fn lemma_registry_codes()
    ensures
        known_codes().contains("missing-metadata"@),
        known_codes().contains("missing-description"@),
        known_codes().contains("sensitive-default"@),
        known_codes().contains("unknown-reference"@),
        known_codes().contains("unknown-feature-reference"@),
        known_codes().contains("unknown-metadata"@),
        known_codes().contains("unknown-default-member"@),
        known_codes().contains("unknown-default-reference"@),
        known_codes().contains("small-group"@),
        known_codes().contains("duplicate-group-member"@),
        known_codes().contains("unknown-group-member"@),
        known_codes().contains("mutually-exclusive-default"@),
        known_codes().contains("dependency-not-found"@),
        known_codes().contains("dependency-not-optional"@),
        known_codes().contains("private-enabled-by-public"@),
        known_codes().contains("feature-cycle"@),
{
    let k = known_codes();
    assert(k[0] == "missing-metadata"@);
    assert(k[1] == "missing-description"@);
    assert(k[2] == "sensitive-default"@);
    assert(k[3] == "unknown-reference"@);
    assert(k[4] == "unknown-feature-reference"@);
    assert(k[5] == "unknown-metadata"@);
    assert(k[6] == "unknown-default-member"@);
    assert(k[7] == "unknown-default-reference"@);
    assert(k[8] == "small-group"@);
    assert(k[9] == "duplicate-group-member"@);
    assert(k[10] == "unknown-group-member"@);
    assert(k[11] == "mutually-exclusive-default"@);
    assert(k[12] == "dependency-not-found"@);
    assert(k[13] == "dependency-not-optional"@);
    assert(k[14] == "private-enabled-by-public"@);
    assert(k[15] == "feature-cycle"@);
}

/// Issues with known codes stay so when joined.
pub proof fn lemma_codes_concat(a: Seq<IssueModel>, b: Seq<IssueModel>)
    requires
        codes_known(a),
        codes_known(b),
    ensures
        codes_known(a + b),
{
    assert forall|k: int| 0 <= k < (a + b).len() implies known_codes().contains(#[trigger] (a + b)[k].code) by {
        if k < a.len() {
            assert((a + b)[k] == a[k]);
        } else {
            assert((a + b)[k] == b[k - a.len()]);
        }
    }
}

/// The findings about features carry known codes.
pub proof fn lemma_features_codes(m: ManifestModel, fs: Seq<FeatureModel>)
    ensures
        codes_known(features_issues(m, fs)),
    decreases fs.len(),
{
    lemma_registry_codes();
    if fs.len() > 0 {
        lemma_features_codes(m, fs.drop_last());
        let f = fs.last();
        lemma_unknown_refs_codes(f.name, f.enables);
        lemma_refs_codes(m, f.name, f.metadata.public, f.enables);
        lemma_codes_concat(head_issues(f), unknown_ref_issues(f.name, f.enables));
        lemma_codes_concat(
            head_issues(f) + unknown_ref_issues(f.name, f.enables),
            refs_issues(m, f.name, f.metadata.public, f.enables),
        );
        lemma_codes_concat(features_issues(m, fs.drop_last()), feature_issues(m, f));
    }
}

/// The warnings about unclassified references carry known codes.
pub proof fn lemma_unknown_refs_codes(name: Seq<char>, refs: Seq<RefModel>)
    ensures
        codes_known(unknown_ref_issues(name, refs)),
    decreases refs.len(),
{
    lemma_registry_codes();
    if refs.len() > 0 {
        lemma_unknown_refs_codes(name, refs.drop_last());
        lemma_codes_concat(unknown_ref_issues(name, refs.drop_last()), unknown_ref_issue(name, refs.last()));
    }
}

/// The findings about references carry known codes.
pub proof fn lemma_refs_codes(m: ManifestModel, source: Seq<char>, public: bool, refs: Seq<RefModel>)
    ensures
        codes_known(refs_issues(m, source, public, refs)),
    decreases refs.len(),
{
    lemma_registry_codes();
    if refs.len() > 0 {
        lemma_refs_codes(m, source, public, refs.drop_last());
        let r = refs.last();
        assert(codes_known(ref_issues(m, source, public, r))) by {
            match r {
                RefModel::Dependency(name) => {
                    lemma_dependency_codes(m, source, name, None, false);
                },
                RefModel::DependencyFeature(dep, feature, weak) => {
                    lemma_dependency_codes(m, source, dep, Some(feature), weak);
                },
                _ => {},
            }
        }
        lemma_codes_concat(refs_issues(m, source, public, refs.drop_last()), ref_issues(m, source, public, r));
    }
}

/// The findings about a dependency reference carry known codes.
pub proof fn lemma_dependency_codes(
    m: ManifestModel,
    source: Seq<char>,
    dep: Seq<char>,
    feature: Option<Seq<char>>,
    weak: bool,
)
    ensures
        codes_known(dependency_issues(m, source, dep, feature, weak)),
{
    lemma_registry_codes();
}

/// The findings about cycles carry known codes.
pub proof fn lemma_cycles_codes(cs: Seq<Seq<Seq<char>>>)
    ensures
        codes_known(cycles_issues(cs)),
    decreases cs.len(),
{
    lemma_registry_codes();
    if cs.len() > 0 {
        lemma_cycles_codes(cs.drop_last());
        lemma_codes_concat(
            cycles_issues(cs.drop_last()),
            cycle_name_issues(sorted_set(cs.last()), join(cs.last(), " -> "@)),
        );
    }
}

/// The findings about default members carry known codes.
pub proof fn lemma_defaults_codes(m: ManifestModel, rs: Seq<RefModel>)
    ensures
        codes_known(defaults_issues(m, rs)),
    decreases rs.len(),
{
    lemma_registry_codes();
    if rs.len() > 0 {
        lemma_defaults_codes(m, rs.drop_last());
        let r = rs.last();
        assert(codes_known(default_member_issues(m, r))) by {
            match r {
                RefModel::Dependency(name) => {
                    lemma_dependency_codes(m, "default"@, name, None, false);
                },
                RefModel::DependencyFeature(dep, feature, weak) => {
                    lemma_dependency_codes(m, "default"@, dep, Some(feature), weak);
                },
                _ => {},
            }
        }
        lemma_codes_concat(defaults_issues(m, rs.drop_last()), default_member_issues(m, r));
    }
}

/// The findings about group members carry known codes.
pub proof fn lemma_members_codes(m: ManifestModel, group: Seq<char>, ms: Seq<Seq<char>>)
    ensures
        codes_known(members_issues(m, group, ms)),
    decreases ms.len(),
{
    lemma_registry_codes();
    if ms.len() > 0 {
        lemma_members_codes(m, group, ms.drop_last());
        lemma_codes_concat(
            members_issues(m, group, ms.drop_last()),
            member_issues(m, group, ms.drop_last(), ms.last()),
        );
    }
}

/// The findings about groups carry known codes.
pub proof fn lemma_groups_codes(m: ManifestModel, gs: Seq<GroupModel>)
    ensures
        codes_known(groups_issues(m, gs)),
    decreases gs.len(),
{
    lemma_registry_codes();
    if gs.len() > 0 {
        lemma_groups_codes(m, gs.drop_last());
        let g = gs.last();
        lemma_members_codes(m, g.name, g.members);
        let small: Seq<IssueModel> = if g.members.len() < 2 {
            seq![warning_issue("small-group"@, Some(g.name), "groups are most useful with at least two members."@)]
        } else {
            Seq::empty()
        };
        let rest = group_issues(m, g).skip((small.len() + members_issues(m, g.name, g.members).len()) as int);
        assert(group_issues(m, g) == small + members_issues(m, g.name, g.members) + rest);
        lemma_codes_concat(small, members_issues(m, g.name, g.members));
        lemma_codes_concat(small + members_issues(m, g.name, g.members), rest);
        lemma_codes_concat(groups_issues(m, gs.drop_last()), group_issues(m, g));
    }
}

/// Applying lint levels keeps each kept issue's code.
pub proof fn lemma_levels_codes(
    issues: Seq<IssueModel>,
    cli: Seq<(Seq<char>, LintLevel)>,
    cli_preset: Option<LintPreset>,
    m: ManifestModel,
)
    requires
        codes_known(issues),
    ensures
        codes_known(apply_levels(issues, cli, cli_preset, m)),
    decreases issues.len(),
{
    if issues.len() > 0 {
        assert(codes_known(issues.drop_last())) by {
            assert forall|k: int| 0 <= k < issues.drop_last().len() implies known_codes().contains(
                #[trigger] issues.drop_last()[k].code,
            ) by {
                assert(issues.drop_last()[k] == issues[k]);
            }
        }
        lemma_levels_codes(issues.drop_last(), cli, cli_preset, m);
        let last = issues.last();
        assert(known_codes().contains(issues[issues.len() - 1].code));
        lemma_codes_concat(
            apply_levels(issues.drop_last(), cli, cli_preset, m),
            leveled(last, effective_level(cli, cli_preset, m, last.code)),
        );
    }
}

/// Every issue that validation reports carries a lint code of the registry,
/// so every finding can be configured by a lint override.
pub proof fn law_issue_codes_are_known(
    m: ManifestModel,
    cli: Seq<(Seq<char>, LintLevel)>,
    cli_preset: Option<LintPreset>,
)
    ensures
        codes_known(validation_issues(m, cli, cli_preset)),
{
    lemma_registry_codes();
    lemma_features_codes(m, m.features);
    lemma_cycles_codes(crate::cycles::feature_cycles(m.features));
    lemma_defaults_codes(m, m.default_members);
    lemma_groups_codes(m, m.groups);
    let a = features_issues(m, m.features);
    let b = cycles_issues(crate::cycles::feature_cycles(m.features));
    let c = metadata_only_issues(m.metadata_only);
    let d = defaults_issues(m, m.default_members);
    let e = groups_issues(m, m.groups);
    lemma_codes_concat(a, b);
    lemma_codes_concat(a + b, c);
    lemma_codes_concat(a + b + c, d);
    lemma_codes_concat(a + b + c + d, e);
    lemma_levels_codes(raw_issues(m), cli, cli_preset, m);
}

/// The lint codes of the registry are distinct.
pub proof fn law_lint_codes_distinct()
    ensures
        known_codes().no_duplicates(),
{
    reveal_strlit("missing-metadata");
    reveal_strlit("missing-description");
    reveal_strlit("sensitive-default");
    reveal_strlit("unknown-reference");
    reveal_strlit("unknown-feature-reference");
    reveal_strlit("unknown-metadata");
    reveal_strlit("unknown-default-member");
    reveal_strlit("unknown-default-reference");
    reveal_strlit("small-group");
    reveal_strlit("duplicate-group-member");
    reveal_strlit("unknown-group-member");
    reveal_strlit("mutually-exclusive-default");
    reveal_strlit("dependency-not-found");
    reveal_strlit("dependency-not-optional");
    reveal_strlit("private-enabled-by-public");
    reveal_strlit("feature-cycle");
    let k = known_codes();
    assert forall|a: int, b: int| 0 <= a < k.len() && 0 <= b < k.len() && a != b implies k[a] != k[b] by {
        if k[a] == k[b] {
            assert(k[a].len() == k[b].len());
            assert(k[a][0] == k[b][0]);
            assert(k[a][k[a].len() - 1] == k[b][k[b].len() - 1]);
            assert(k[a][8] == k[b][8]);
        }
    }
}

/// The severity a CLI preset gives an issue, else the severity it had.
pub open spec fn preset_severity(p: LintPreset, code: Seq<char>, fallback: Severity) -> Severity {
    match preset_level(Some(p), code) {
        Some(LintLevel::Warn) => Severity::Warning,
        Some(LintLevel::Deny) => Severity::Error,
        _ => fallback,
    }
}

/// A preset never silences a lint.
pub proof fn lemma_preset_never_allows(p: Option<LintPreset>, code: Seq<char>)
    ensures
        preset_level(p, code) != Some(LintLevel::Allow),
{
}

/// Applying a CLI preset over a manifest without a lint table keeps each
/// issue of plain validation, changing only its severity.
pub proof fn lemma_levels_with_preset(issues: Seq<IssueModel>, p: LintPreset, m: ManifestModel)
    requires
        m.lint_overrides.len() == 0,
    ensures
        apply_levels(issues, Seq::empty(), Some(p), m).len() == issues.len(),
        apply_levels(issues, Seq::empty(), None, m).len() == issues.len(),
        forall|k: int| 0 <= k < issues.len() ==> {
            let r = #[trigger] apply_levels(issues, Seq::empty(), Some(p), m)[k];
            let b = apply_levels(issues, Seq::empty(), None, m)[k];
            &&& r.code == b.code
            &&& r.feature == b.feature
            &&& r.message == b.message
            &&& r.default_severity == b.default_severity
            &&& r.severity == preset_severity(p, r.code, b.severity)
        },
    decreases issues.len(),
{
    if issues.len() > 0 {
        let init = issues.drop_last();
        lemma_levels_with_preset(init, p, m);
        let i = issues.last();
        lemma_key_value_empty(i.code);
        lemma_preset_never_allows(Some(p), i.code);
        lemma_preset_never_allows(m.lint_preset, i.code);
        let rp = apply_levels(init, Seq::empty(), Some(p), m);
        let bp = apply_levels(init, Seq::empty(), None, m);
        let r = apply_levels(issues, Seq::empty(), Some(p), m);
        let b = apply_levels(issues, Seq::empty(), None, m);
        assert forall|k: int| 0 <= k < issues.len() implies {
            let x = #[trigger] r[k];
            let y = b[k];
            &&& x.code == y.code
            &&& x.feature == y.feature
            &&& x.message == y.message
            &&& x.default_severity == y.default_severity
            &&& x.severity == preset_severity(p, x.code, y.severity)
        } by {
            if k < init.len() {
                assert(r[k] == rp[k]);
                assert(b[k] == bp[k]);
            }
        }
    }
}

/// The level of a code in an empty table of overrides is none.
pub proof fn lemma_key_value_empty(code: Seq<char>)
    ensures
        key_value(Seq::<(Seq<char>, LintLevel)>::empty(), code) is None,
{
}

/// A lint preset given on the command line, over a manifest without a lint
/// table, reports the same issues as plain validation, in the same order;
/// only the severities of the codes the preset names change, to its level.
pub proof fn law_cli_preset_relevels(m: ManifestModel, p: LintPreset)
    requires
        m.lint_overrides.len() == 0,
    ensures
        validation_issues(m, Seq::empty(), Some(p)).len() == validation_issues(m, Seq::empty(), None).len(),
        forall|k: int| 0 <= k < validation_issues(m, Seq::empty(), None).len() ==> {
            let r = #[trigger] validation_issues(m, Seq::empty(), Some(p))[k];
            let b = validation_issues(m, Seq::empty(), None)[k];
            &&& r.code == b.code
            &&& r.feature == b.feature
            &&& r.message == b.message
            &&& r.severity == preset_severity(p, r.code, b.severity)
        },
{
    lemma_levels_with_preset(raw_issues(m), p, m);
}

/// A manifest without its lint table and lint preset.
pub open spec fn without_lint_config(m: ManifestModel) -> ManifestModel {
    ManifestModel { lint_overrides: Seq::empty(), lint_preset: None, ..m }
}

/// Findings about references do not depend on the lint configuration.
pub proof fn lemma_refs_lint_free(m: ManifestModel, source: Seq<char>, public: bool, refs: Seq<RefModel>)
    ensures
        refs_issues(m, source, public, refs) == refs_issues(without_lint_config(m), source, public, refs),
    decreases refs.len(),
{
    if refs.len() > 0 {
        lemma_refs_lint_free(m, source, public, refs.drop_last());
    }
}

/// Findings about features do not depend on the lint configuration.
pub proof fn lemma_features_lint_free(m: ManifestModel, fs: Seq<FeatureModel>)
    ensures
        features_issues(m, fs) == features_issues(without_lint_config(m), fs),
    decreases fs.len(),
{
    if fs.len() > 0 {
        lemma_features_lint_free(m, fs.drop_last());
        let f = fs.last();
        lemma_refs_lint_free(m, f.name, f.metadata.public, f.enables);
    }
}

/// Findings about default members do not depend on the lint configuration.
pub proof fn lemma_defaults_lint_free(m: ManifestModel, rs: Seq<RefModel>)
    ensures
        defaults_issues(m, rs) == defaults_issues(without_lint_config(m), rs),
    decreases rs.len(),
{
    if rs.len() > 0 {
        lemma_defaults_lint_free(m, rs.drop_last());
    }
}

/// Findings about group members do not depend on the lint configuration.
pub proof fn lemma_members_lint_free(m: ManifestModel, group: Seq<char>, ms: Seq<Seq<char>>)
    ensures
        members_issues(m, group, ms) == members_issues(without_lint_config(m), group, ms),
        default_names(m, ms) == default_names(without_lint_config(m), ms),
    decreases ms.len(),
{
    if ms.len() > 0 {
        lemma_members_lint_free(m, group, ms.drop_last());
    }
}

/// Findings about groups do not depend on the lint configuration.
pub proof fn lemma_groups_lint_free(m: ManifestModel, gs: Seq<GroupModel>)
    ensures
        groups_issues(m, gs) == groups_issues(without_lint_config(m), gs),
    decreases gs.len(),
{
    if gs.len() > 0 {
        lemma_groups_lint_free(m, gs.drop_last());
        lemma_members_lint_free(m, gs.last().name, gs.last().members);
    }
}

/// Validating with options reports the issues of plain validation of the
/// manifest without its lint table and preset, each under the level in force
/// for its code: CLI override, else manifest override, else CLI preset, else
/// manifest preset; allowed ones dropped, others given the level's severity.
pub proof fn law_options_relevel_plain_issues(
    m: ManifestModel,
    cli: Seq<(Seq<char>, LintLevel)>,
    cli_preset: Option<LintPreset>,
)
    ensures
        validation_issues(m, cli, cli_preset) == apply_levels(
            validation_issues(without_lint_config(m), Seq::empty(), None),
            cli,
            cli_preset,
            m,
        ),
{
    let m0 = without_lint_config(m);
    lemma_features_lint_free(m, m.features);
    lemma_defaults_lint_free(m, m.default_members);
    lemma_groups_lint_free(m, m.groups);
    assert(raw_issues(m) == raw_issues(m0));
    assert forall|c: Seq<char>| #[trigger] effective_level(Seq::empty(), None, m0, c) is None by {
        lemma_key_value_empty(c);
    }
    law_no_overrides_reports_all(m0, Seq::empty(), None);
}

/// Whether some issue has the code and names `name`.
pub open spec fn mentions_issue(v: Seq<IssueModel>, code: Seq<char>, name: Seq<char>) -> bool {
    exists|j: int| 0 <= j < v.len() && (#[trigger] v[j]).code == code && v[j].feature == Some(name)
}

/// Whether a code is one of those reported about a feature's own metadata.
pub open spec fn head_code(code: Seq<char>) -> bool {
    code == "missing-metadata"@ || code == "missing-description"@ || code == "sensitive-default"@
}

/// When a feature gets the finding of a code about its own metadata.
pub open spec fn head_condition(code: Seq<char>, f: FeatureModel) -> bool {
    if code == "missing-metadata"@ {
        !f.has_metadata
    } else if code == "missing-description"@ {
        missing_description(f.metadata)
    } else {
        sensitive_default(f)
    }
}

/// Whether no issue carries a code about a feature's own metadata.
pub open spec fn no_head_codes(v: Seq<IssueModel>) -> bool {
    forall|j: int| 0 <= j < v.len() ==> !head_code(#[trigger] v[j].code)
}

/// An issue is found in joined lists exactly when it is in one of them.
pub proof fn lemma_mentions_concat(a: Seq<IssueModel>, b: Seq<IssueModel>, code: Seq<char>, name: Seq<char>)
    ensures
        mentions_issue(a + b, code, name) == (mentions_issue(a, code, name) || mentions_issue(b, code, name)),
{
    if mentions_issue(a + b, code, name) {
        let j = choose|j: int| 0 <= j < (a + b).len() && (#[trigger] (a + b)[j]).code == code && (a + b)[j].feature == Some(name);
        if j < a.len() {
            assert((a + b)[j] == a[j]);
        } else {
            assert((a + b)[j] == b[j - a.len()]);
        }
    }
    if mentions_issue(a, code, name) {
        let j = choose|j: int| 0 <= j < a.len() && (#[trigger] a[j]).code == code && a[j].feature == Some(name);
        assert((a + b)[j] == a[j]);
    }
    if mentions_issue(b, code, name) {
        let j = choose|j: int| 0 <= j < b.len() && (#[trigger] b[j]).code == code && b[j].feature == Some(name);
        assert((a + b)[j + a.len()] == b[j]);
    }
}

/// Lists without the codes stay so when joined.
pub proof fn lemma_no_head_concat(a: Seq<IssueModel>, b: Seq<IssueModel>)
    requires
        no_head_codes(a),
        no_head_codes(b),
    ensures
        no_head_codes(a + b),
{
    assert forall|j: int| 0 <= j < (a + b).len() implies !head_code(#[trigger] (a + b)[j].code) by {
        if j < a.len() {
            assert((a + b)[j] == a[j]);
        } else {
            assert((a + b)[j] == b[j - a.len()]);
        }
    }
}

/// A list without the codes mentions no issue of them.
pub proof fn lemma_no_head_mentions(v: Seq<IssueModel>, code: Seq<char>, name: Seq<char>)
    requires
        no_head_codes(v),
        head_code(code),
    ensures
        !mentions_issue(v, code, name),
{
    if mentions_issue(v, code, name) {
        let j = choose|j: int| 0 <= j < v.len() && (#[trigger] v[j]).code == code && v[j].feature == Some(name);
        assert(!head_code(v[j].code));
    }
}

/// The codes that are not about a feature's own metadata differ from those.
pub proof fn lemma_other_codes()
    ensures
        !head_code("unknown-reference"@),
        !head_code("unknown-feature-reference"@),
        !head_code("unknown-metadata"@),
        !head_code("unknown-default-member"@),
        !head_code("unknown-default-reference"@),
        !head_code("small-group"@),
        !head_code("duplicate-group-member"@),
        !head_code("unknown-group-member"@),
        !head_code("mutually-exclusive-default"@),
        !head_code("dependency-not-found"@),
        !head_code("dependency-not-optional"@),
        !head_code("private-enabled-by-public"@),
        !head_code("feature-cycle"@),
{
    law_lint_codes_distinct();
    let k = known_codes();
    assert forall|a: int, b: int| 0 <= a < 3 && 3 <= b < 16 implies k[a] != k[b] by {
        assert(k.no_duplicates());
    }
    assert(k[0] == "missing-metadata"@ && k[1] == "missing-description"@ && k[2] == "sensitive-default"@);
    assert(k[3] == "unknown-reference"@ && k[4] == "unknown-feature-reference"@ && k[5] == "unknown-metadata"@);
    assert(k[6] == "unknown-default-member"@ && k[7] == "unknown-default-reference"@ && k[8] == "small-group"@);
    assert(k[9] == "duplicate-group-member"@ && k[10] == "unknown-group-member"@);
    assert(k[11] == "mutually-exclusive-default"@ && k[12] == "dependency-not-found"@);
    assert(k[13] == "dependency-not-optional"@ && k[14] == "private-enabled-by-public"@ && k[15] == "feature-cycle"@);
}

/// Findings about references carry none of the codes.
pub proof fn lemma_refs_no_head(m: ManifestModel, source: Seq<char>, public: bool, refs: Seq<RefModel>)
    ensures
        no_head_codes(refs_issues(m, source, public, refs)),
        no_head_codes(unknown_ref_issues(source, refs)),
    decreases refs.len(),
{
    lemma_other_codes();
    if refs.len() > 0 {
        lemma_refs_no_head(m, source, public, refs.drop_last());
        lemma_no_head_concat(refs_issues(m, source, public, refs.drop_last()), ref_issues(m, source, public, refs.last()));
        lemma_no_head_concat(unknown_ref_issues(source, refs.drop_last()), unknown_ref_issue(source, refs.last()));
    }
}

/// A feature's findings mention a code about its own metadata exactly for
/// its own name, when the condition of the code holds.
pub proof fn lemma_features_head(m: ManifestModel, fs: Seq<FeatureModel>, code: Seq<char>, name: Seq<char>)
    requires
        head_code(code),
    ensures
        mentions_issue(features_issues(m, fs), code, name) == exists|k: int|
            0 <= k < fs.len() && (#[trigger] fs[k]).name == name && head_condition(code, fs[k]),
    decreases fs.len(),
{
    if fs.len() > 0 {
        let init = fs.drop_last();
        let f = fs.last();
        lemma_features_head(m, init, code, name);
        lemma_refs_no_head(m, f.name, f.metadata.public, f.enables);
        let h = head_issues(f);
        let u = unknown_ref_issues(f.name, f.enables);
        let r = refs_issues(m, f.name, f.metadata.public, f.enables);
        lemma_no_head_concat(u, r);
        lemma_no_head_mentions(u + r, code, name);
        assert(feature_issues(m, f) == h + u + r);
        lemma_mentions_concat(h, u + r, code, name);
        assert(h + u + r == h + (u + r));
        lemma_mentions_concat(features_issues(m, init), feature_issues(m, f), code, name);
        assert(mentions_issue(h, code, name) == (f.name == name && head_condition(code, f))) by {
            lemma_head_codes_distinct();
            if mentions_issue(h, code, name) {
                let j = choose|j: int| 0 <= j < h.len() && (#[trigger] h[j]).code == code && h[j].feature == Some(name);
                let a: Seq<IssueModel> = if !f.has_metadata {
                    seq![error_issue("missing-metadata"@, Some(f.name), "feature is defined in `[features]` but missing metadata; add an entry under `[package.metadata.feature-manifest]`."@)]
                } else {
                    Seq::empty()
                };
                let b: Seq<IssueModel> = if missing_description(f.metadata) {
                    seq![error_issue("missing-description"@, Some(f.name), "feature metadata needs a non-empty `description`."@)]
                } else {
                    Seq::empty()
                };
                let c = h.skip((a.len() + b.len()) as int);
                assert(h == a + b + c);
                if j < a.len() {
                    assert(h[j] == a[j]);
                } else if j < a.len() + b.len() {
                    assert(h[j] == b[j - a.len()]);
                } else {
                    assert(h[j] == c[j - a.len() - b.len()]);
                    assert(sensitive_default(f));
                }
            }
            if f.name == name && head_condition(code, f) {
                if code == "missing-metadata"@ {
                    assert(h[0].code == code);
                } else if code == "missing-description"@ {
                    let w = if !f.has_metadata { 1int } else { 0int };
                    assert(h[w].code == code);
                } else {
                    let w = (if !f.has_metadata { 1int } else { 0int }) + (if missing_description(f.metadata) { 1int } else { 0int });
                    assert(h[w].code == code);
                }
            }
        }
        if exists|k: int| 0 <= k < init.len() && (#[trigger] init[k]).name == name && head_condition(code, init[k]) {
            let k = choose|k: int| 0 <= k < init.len() && (#[trigger] init[k]).name == name && head_condition(code, init[k]);
            assert(fs[k] == init[k]);
        }
        if exists|k: int| 0 <= k < fs.len() && (#[trigger] fs[k]).name == name && head_condition(code, fs[k]) {
            let k = choose|k: int| 0 <= k < fs.len() && (#[trigger] fs[k]).name == name && head_condition(code, fs[k]);
            if k < init.len() {
                assert(init[k] == fs[k]);
            }
        }
    }
}

/// The codes about a feature's own metadata are distinct.
pub proof fn lemma_head_codes_distinct()
    ensures
        "missing-metadata"@ != "missing-description"@,
        "missing-metadata"@ != "sensitive-default"@,
        "missing-description"@ != "sensitive-default"@,
{
    law_lint_codes_distinct();
    let k = known_codes();
    assert(k[0] != k[1] && k[0] != k[2] && k[1] != k[2]);
}

/// Findings about cycles, stale metadata, defaults, and groups carry none of
/// the codes about a feature's own metadata.
pub proof fn lemma_rest_no_head(m: ManifestModel)
    ensures
        no_head_codes(cycles_issues(crate::cycles::feature_cycles(m.features))),
        no_head_codes(metadata_only_issues(m.metadata_only)),
        no_head_codes(defaults_issues(m, m.default_members)),
        no_head_codes(groups_issues(m, m.groups)),
{
    lemma_other_codes();
    lemma_cycles_no_head(crate::cycles::feature_cycles(m.features));
    lemma_defaults_no_head(m, m.default_members);
    lemma_groups_no_head(m, m.groups);
}

/// Findings about cycles carry none of the codes.
pub proof fn lemma_cycles_no_head(cs: Seq<Seq<Seq<char>>>)
    ensures
        no_head_codes(cycles_issues(cs)),
    decreases cs.len(),
{
    lemma_other_codes();
    if cs.len() > 0 {
        lemma_cycles_no_head(cs.drop_last());
        lemma_no_head_concat(cycles_issues(cs.drop_last()), cycle_name_issues(sorted_set(cs.last()), join(cs.last(), " -> "@)));
    }
}

/// Findings about default members carry none of the codes.
pub proof fn lemma_defaults_no_head(m: ManifestModel, rs: Seq<RefModel>)
    ensures
        no_head_codes(defaults_issues(m, rs)),
    decreases rs.len(),
{
    lemma_other_codes();
    if rs.len() > 0 {
        lemma_defaults_no_head(m, rs.drop_last());
        lemma_no_head_concat(defaults_issues(m, rs.drop_last()), default_member_issues(m, rs.last()));
    }
}

/// Findings about groups carry none of the codes.
pub proof fn lemma_groups_no_head(m: ManifestModel, gs: Seq<GroupModel>)
    ensures
        no_head_codes(groups_issues(m, gs)),
    decreases gs.len(),
{
    lemma_other_codes();
    if gs.len() > 0 {
        lemma_groups_no_head(m, gs.drop_last());
        let g = gs.last();
        lemma_members_no_head(m, g.name, g.members);
        let small: Seq<IssueModel> = if g.members.len() < 2 {
            seq![warning_issue("small-group"@, Some(g.name), "groups are most useful with at least two members."@)]
        } else {
            Seq::empty()
        };
        let mid = members_issues(m, g.name, g.members);
        let rest = group_issues(m, g).skip((small.len() + mid.len()) as int);
        assert(group_issues(m, g) == small + mid + rest);
        lemma_no_head_concat(small, mid);
        lemma_no_head_concat(small + mid, rest);
        lemma_no_head_concat(groups_issues(m, gs.drop_last()), group_issues(m, g));
    }
}

/// Findings about group members carry none of the codes.
pub proof fn lemma_members_no_head(m: ManifestModel, group: Seq<char>, ms: Seq<Seq<char>>)
    ensures
        no_head_codes(members_issues(m, group, ms)),
    decreases ms.len(),
{
    lemma_other_codes();
    if ms.len() > 0 {
        lemma_members_no_head(m, group, ms.drop_last());
        lemma_no_head_concat(members_issues(m, group, ms.drop_last()), member_issues(m, group, ms.drop_last(), ms.last()));
    }
}

/// Without a lint table or CLI overrides no lint is allowed, so applying the
/// levels keeps every issue's code and name.
pub proof fn lemma_levels_keep_mentions(issues: Seq<IssueModel>, m: ManifestModel, code: Seq<char>, name: Seq<char>)
    requires
        m.lint_overrides.len() == 0,
    ensures
        mentions_issue(apply_levels(issues, Seq::empty(), None, m), code, name) == mentions_issue(issues, code, name),
    decreases issues.len(),
{
    if issues.len() > 0 {
        let i = issues.last();
        lemma_levels_keep_mentions(issues.drop_last(), m, code, name);
        lemma_key_value_empty(i.code);
        lemma_preset_never_allows(m.lint_preset, i.code);
        let l = leveled(i, effective_level(Seq::empty(), None, m, i.code));
        assert(l.len() == 1 && l[0].code == i.code && l[0].feature == i.feature);
        lemma_mentions_concat(apply_levels(issues.drop_last(), Seq::empty(), None, m), l, code, name);
        lemma_mentions_concat(issues.drop_last(), seq![i], code, name);
        assert(issues == issues.drop_last() + seq![i]);
        assert(mentions_issue(l, code, name) == mentions_issue(seq![i], code, name)) by {
            if mentions_issue(seq![i], code, name) {
                assert(seq![i][0] == i);
                assert(l[0].code == code && l[0].feature == Some(name));
            }
            if mentions_issue(l, code, name) {
                assert(seq![i][0] == i);
            }
        }
    }
}

/// For a manifest with distinct feature names and no lint table, plain
/// validation reports `missing-metadata` about a feature exactly when it has
/// no metadata entry, `missing-description` exactly when its description is
/// missing or blank, and `sensitive-default` exactly when it is a private,
/// unstable, or deprecated feature enabled by default without `allow_default`.
pub proof fn law_feature_metadata_findings(m: ManifestModel, k: int, code: Seq<char>)
    requires
        crate::model::names_ascending(m.features),
        m.lint_overrides.len() == 0,
        0 <= k < m.features.len(),
        head_code(code),
    ensures
        mentions_issue(validation_issues(m, Seq::empty(), None), code, m.features[k].name) == head_condition(
            code,
            m.features[k],
        ),
{
    let name = m.features[k].name;
    lemma_features_head(m, m.features, code, name);
    lemma_rest_no_head(m);
    let a = features_issues(m, m.features);
    let b = cycles_issues(crate::cycles::feature_cycles(m.features));
    let c = metadata_only_issues(m.metadata_only);
    let d = defaults_issues(m, m.default_members);
    let e = groups_issues(m, m.groups);
    lemma_no_head_concat(b, c);
    lemma_no_head_concat(b + c, d);
    lemma_no_head_concat(b + c + d, e);
    lemma_no_head_mentions(b + c + d + e, code, name);
    assert(raw_issues(m) == a + (b + c + d + e));
    lemma_mentions_concat(a, b + c + d + e, code, name);
    lemma_levels_keep_mentions(raw_issues(m), m, code, name);
    if exists|j: int| 0 <= j < m.features.len() && (#[trigger] m.features[j]).name == name && head_condition(code, m.features[j]) {
        let j = choose|j: int| 0 <= j < m.features.len() && (#[trigger] m.features[j]).name == name && head_condition(code, m.features[j]);
        if j != k {
            if j < k {
                assert(crate::order::str_less(m.features[j].name, m.features[k].name));
            } else {
                assert(crate::order::str_less(m.features[k].name, m.features[j].name));
            }
            crate::order::lemma_str_less_irreflexive(name);
        }
    }
}


/// How many issues of a list carry a code and name a feature.
pub open spec fn issue_count(v: Seq<IssueModel>, code: Seq<char>, name: Seq<char>) -> nat
    decreases v.len(),
{
    if v.len() == 0 {
        0
    } else {
        issue_count(v.drop_last(), code, name) + (if v.last().code == code && v.last().feature == Some(name) {
            1nat
        } else {
            0nat
        })
    }
}

/// The issues of joined lists are counted list by list.
pub proof fn lemma_count_concat(a: Seq<IssueModel>, b: Seq<IssueModel>, code: Seq<char>, name: Seq<char>)
    ensures
        issue_count(a + b, code, name) == issue_count(a, code, name) + issue_count(b, code, name),
    decreases b.len(),
{
    if b.len() == 0 {
        assert(a + b =~= a);
    } else {
        lemma_count_concat(a, b.drop_last(), code, name);
        assert((a + b).drop_last() =~= a + b.drop_last());
        assert((a + b).last() == b.last());
    }
}

/// A list of at most one issue counts that issue alone.
pub proof fn lemma_count_short(v: Seq<IssueModel>, code: Seq<char>, name: Seq<char>)
    requires
        v.len() <= 1,
    ensures
        issue_count(v, code, name) == (if v.len() == 1 && v[0].code == code && v[0].feature == Some(name) {
            1nat
        } else {
            0nat
        }),
{
    if v.len() == 1 {
        assert(v.drop_last().len() == 0);
        assert(issue_count(v.drop_last(), code, name) == 0);
    }
}

/// A list without the codes about a feature's own metadata counts none of them.
pub proof fn lemma_count_no_head(v: Seq<IssueModel>, code: Seq<char>, name: Seq<char>)
    requires
        no_head_codes(v),
        head_code(code),
    ensures
        issue_count(v, code, name) == 0,
    decreases v.len(),
{
    if v.len() > 0 {
        assert forall|j: int| 0 <= j < v.drop_last().len() implies !head_code(#[trigger] v.drop_last()[j].code) by {
            assert(v.drop_last()[j] == v[j]);
        }
        lemma_count_no_head(v.drop_last(), code, name);
        assert(!head_code(v[v.len() - 1].code));
    }
}

/// Without a lint table or CLI overrides no lint is allowed, so applying the
/// levels keeps the count of every code and name.
pub proof fn lemma_levels_keep_count(issues: Seq<IssueModel>, m: ManifestModel, code: Seq<char>, name: Seq<char>)
    requires
        m.lint_overrides.len() == 0,
    ensures
        issue_count(apply_levels(issues, Seq::empty(), None, m), code, name) == issue_count(issues, code, name),
    decreases issues.len(),
{
    if issues.len() > 0 {
        let i = issues.last();
        lemma_levels_keep_count(issues.drop_last(), m, code, name);
        lemma_key_value_empty(i.code);
        lemma_preset_never_allows(m.lint_preset, i.code);
        let l = leveled(i, effective_level(Seq::empty(), None, m, i.code));
        assert(l.len() == 1 && l[0].code == i.code && l[0].feature == i.feature);
        lemma_count_concat(apply_levels(issues.drop_last(), Seq::empty(), None, m), l, code, name);
        lemma_count_short(l, code, name);
    }
}

/// How many features of a list carry a name and meet the condition of a code.
pub open spec fn head_count(fs: Seq<FeatureModel>, code: Seq<char>, name: Seq<char>) -> nat
    decreases fs.len(),
{
    if fs.len() == 0 {
        0
    } else {
        head_count(fs.drop_last(), code, name) + (if fs.last().name == name && head_condition(code, fs.last()) {
            1nat
        } else {
            0nat
        })
    }
}

/// A feature's own findings count a code about its metadata once when the
/// feature carries the name and meets the condition, else not at all.
pub proof fn lemma_head_count(f: FeatureModel, code: Seq<char>, name: Seq<char>)
    requires
        head_code(code),
    ensures
        issue_count(head_issues(f), code, name) == (if f.name == name && head_condition(code, f) {
            1nat
        } else {
            0nat
        }),
{
    lemma_head_codes_distinct();
    let h = head_issues(f);
    let a: Seq<IssueModel> = if !f.has_metadata {
        seq![error_issue("missing-metadata"@, Some(f.name), "feature is defined in `[features]` but missing metadata; add an entry under `[package.metadata.feature-manifest]`."@)]
    } else {
        Seq::empty()
    };
    let b: Seq<IssueModel> = if missing_description(f.metadata) {
        seq![error_issue("missing-description"@, Some(f.name), "feature metadata needs a non-empty `description`."@)]
    } else {
        Seq::empty()
    };
    let c = h.skip((a.len() + b.len()) as int);
    assert(h == a + b + c);
    assert(c.len() == (if sensitive_default(f) { 1int } else { 0int }));
    if c.len() == 1 {
        assert(c[0] == h[(a.len() + b.len()) as int]);
        assert(c[0].code == "sensitive-default"@ && c[0].feature == Some(f.name));
    }
    lemma_count_short(a, code, name);
    lemma_count_short(b, code, name);
    lemma_count_short(c, code, name);
    lemma_count_concat(a, b, code, name);
    lemma_count_concat(a + b, c, code, name);
}

/// The findings of a list of features count a code about feature metadata
/// once for each feature that carries the name and meets the condition.
pub proof fn lemma_features_count(m: ManifestModel, fs: Seq<FeatureModel>, code: Seq<char>, name: Seq<char>)
    requires
        head_code(code),
    ensures
        issue_count(features_issues(m, fs), code, name) == head_count(fs, code, name),
    decreases fs.len(),
{
    if fs.len() > 0 {
        let init = fs.drop_last();
        let f = fs.last();
        lemma_features_count(m, init, code, name);
        lemma_refs_no_head(m, f.name, f.metadata.public, f.enables);
        let h = head_issues(f);
        let u = unknown_ref_issues(f.name, f.enables);
        let r = refs_issues(m, f.name, f.metadata.public, f.enables);
        lemma_no_head_concat(u, r);
        lemma_count_no_head(u + r, code, name);
        assert(feature_issues(m, f) == h + (u + r));
        lemma_count_concat(h, u + r, code, name);
        lemma_head_count(f, code, name);
        lemma_count_concat(features_issues(m, init), feature_issues(m, f), code, name);
    }
}

/// With names in strictly ascending order, the one feature of a name decides
/// how many features of that name meet a condition.
pub proof fn lemma_head_count_distinct(fs: Seq<FeatureModel>, k: int, code: Seq<char>)
    requires
        crate::model::names_ascending(fs),
        0 <= k < fs.len(),
    ensures
        head_count(fs, code, fs[k].name) == (if head_condition(code, fs[k]) { 1nat } else { 0nat }),
    decreases fs.len(),
{
    let name = fs[k].name;
    let init = fs.drop_last();
    crate::order::lemma_str_less_irreflexive(name);
    assert(crate::model::names_ascending(init)) by {
        assert forall|i: int, j: int| 0 <= i < j < init.len() implies crate::order::str_less(#[trigger] init[i].name, #[trigger] init[j].name) by {
            assert(init[i] == fs[i] && init[j] == fs[j]);
        }
    }
    if k == fs.len() - 1 {
        lemma_head_count_absent(init, code, name);
    } else {
        assert(init[k] == fs[k]);
        lemma_head_count_distinct(init, k, code);
        assert(crate::order::str_less(fs[k].name, fs[fs.len() - 1].name));
    }
}

/// Features below a name in a strictly ascending list: none carries it.
pub proof fn lemma_head_count_absent(fs: Seq<FeatureModel>, code: Seq<char>, name: Seq<char>)
    requires
        forall|i: int| 0 <= i < fs.len() ==> crate::order::str_less(#[trigger] fs[i].name, name),
    ensures
        head_count(fs, code, name) == 0,
    decreases fs.len(),
{
    crate::order::lemma_str_less_irreflexive(name);
    if fs.len() > 0 {
        let init = fs.drop_last();
        assert forall|i: int| 0 <= i < init.len() implies crate::order::str_less(#[trigger] init[i].name, name) by {
            assert(init[i] == fs[i]);
        }
        lemma_head_count_absent(init, code, name);
        assert(crate::order::str_less(fs[fs.len() - 1].name, name));
    }
}

/// For a manifest with distinct feature names and no lint table, plain
/// validation reports `missing-metadata`, `missing-description` and
/// `sensitive-default` about a feature once when its condition holds and
/// never otherwise.
pub proof fn law_feature_metadata_reported_once(m: ManifestModel, k: int, code: Seq<char>)
    requires
        crate::model::names_ascending(m.features),
        m.lint_overrides.len() == 0,
        0 <= k < m.features.len(),
        head_code(code),
    ensures
        issue_count(validation_issues(m, Seq::empty(), None), code, m.features[k].name) == (if head_condition(
            code,
            m.features[k],
        ) {
            1nat
        } else {
            0nat
        }),
{
    let name = m.features[k].name;
    lemma_features_count(m, m.features, code, name);
    lemma_head_count_distinct(m.features, k, code);
    lemma_rest_no_head(m);
    let a = features_issues(m, m.features);
    let b = cycles_issues(crate::cycles::feature_cycles(m.features));
    let c = metadata_only_issues(m.metadata_only);
    let d = defaults_issues(m, m.default_members);
    let e = groups_issues(m, m.groups);
    lemma_no_head_concat(b, c);
    lemma_no_head_concat(b + c, d);
    lemma_no_head_concat(b + c + d, e);
    lemma_count_no_head(b + c + d + e, code, name);
    assert(raw_issues(m) == a + (b + c + d + e));
    lemma_count_concat(a, b + c + d + e, code, name);
    lemma_levels_keep_count(raw_issues(m), m, code, name);
}


/// Whether no issue of a list carries a code.
pub open spec fn lacks_code(v: Seq<IssueModel>, code: Seq<char>) -> bool {
    forall|j: int| 0 <= j < v.len() ==> (#[trigger] v[j]).code != code
}

/// Lists without a code stay so when joined.
pub proof fn lemma_lack_concat(a: Seq<IssueModel>, b: Seq<IssueModel>, code: Seq<char>)
    requires
        lacks_code(a, code),
        lacks_code(b, code),
    ensures
        lacks_code(a + b, code),
{
    assert forall|j: int| 0 <= j < (a + b).len() implies (#[trigger] (a + b)[j]).code != code by {
        if j < a.len() {
            assert((a + b)[j] == a[j]);
        } else {
            assert((a + b)[j] == b[j - a.len()]);
        }
    }
}

/// The codes reported about a feature and its references.
pub open spec fn feature_code(code: Seq<char>) -> bool {
    head_code(code) || code == "unknown-reference"@ || code == "unknown-feature-reference"@ || code
        == "dependency-not-found"@ || code == "dependency-not-optional"@ || code == "private-enabled-by-public"@
}

/// The codes reported about the entries of `features.default`.
pub open spec fn default_code(code: Seq<char>) -> bool {
    code == "unknown-default-member"@ || code == "unknown-default-reference"@ || code == "dependency-not-found"@
        || code == "dependency-not-optional"@
}

/// The codes reported about the members of a group.
pub open spec fn member_code(code: Seq<char>) -> bool {
    code == "duplicate-group-member"@ || code == "unknown-group-member"@
}

/// The code for stale metadata differs from every other registered code.
pub proof fn lemma_stale_code_distinct()
    ensures
        !feature_code("unknown-metadata"@),
        !default_code("unknown-metadata"@),
        !member_code("unknown-metadata"@),
        "unknown-metadata"@ != "small-group"@,
        "unknown-metadata"@ != "mutually-exclusive-default"@,
        "unknown-metadata"@ != "feature-cycle"@,
{
    law_lint_codes_distinct();
    let k = known_codes();
    assert forall|b: int| 0 <= b < 16 && b != 5 implies k[5] != #[trigger] k[b] by {
        assert(k.no_duplicates());
    }
    assert(k[0] == "missing-metadata"@ && k[1] == "missing-description"@ && k[2] == "sensitive-default"@);
    assert(k[3] == "unknown-reference"@ && k[4] == "unknown-feature-reference"@ && k[5] == "unknown-metadata"@);
    assert(k[6] == "unknown-default-member"@ && k[7] == "unknown-default-reference"@ && k[8] == "small-group"@);
    assert(k[9] == "duplicate-group-member"@ && k[10] == "unknown-group-member"@);
    assert(k[11] == "mutually-exclusive-default"@ && k[12] == "dependency-not-found"@);
    assert(k[13] == "dependency-not-optional"@ && k[14] == "private-enabled-by-public"@ && k[15] == "feature-cycle"@);
}

/// The two codes reported about a group as a whole differ from each other and
/// from every other registered code.
pub proof fn lemma_group_codes_distinct()
    ensures
        "small-group"@ != "mutually-exclusive-default"@,
        !feature_code("small-group"@),
        !default_code("small-group"@),
        !member_code("small-group"@),
        "small-group"@ != "unknown-metadata"@,
        "small-group"@ != "feature-cycle"@,
        !feature_code("mutually-exclusive-default"@),
        !default_code("mutually-exclusive-default"@),
        !member_code("mutually-exclusive-default"@),
        "mutually-exclusive-default"@ != "unknown-metadata"@,
        "mutually-exclusive-default"@ != "feature-cycle"@,
{
    law_lint_codes_distinct();
    let k = known_codes();
    assert forall|b: int| 0 <= b < 16 && b != 8 implies k[8] != #[trigger] k[b] by {
        assert(k.no_duplicates());
    }
    assert forall|b: int| 0 <= b < 16 && b != 11 implies k[11] != #[trigger] k[b] by {
        assert(k.no_duplicates());
    }
    assert(k[0] == "missing-metadata"@ && k[1] == "missing-description"@ && k[2] == "sensitive-default"@);
    assert(k[3] == "unknown-reference"@ && k[4] == "unknown-feature-reference"@ && k[5] == "unknown-metadata"@);
    assert(k[6] == "unknown-default-member"@ && k[7] == "unknown-default-reference"@ && k[8] == "small-group"@);
    assert(k[9] == "duplicate-group-member"@ && k[10] == "unknown-group-member"@);
    assert(k[11] == "mutually-exclusive-default"@ && k[12] == "dependency-not-found"@);
    assert(k[13] == "dependency-not-optional"@ && k[14] == "private-enabled-by-public"@ && k[15] == "feature-cycle"@);
}

/// The findings about a feature's own metadata carry only their three codes.
pub proof fn lemma_head_lack(f: FeatureModel, code: Seq<char>)
    requires
        !head_code(code),
    ensures
        lacks_code(head_issues(f), code),
{
    let h = head_issues(f);
    let a: Seq<IssueModel> = if !f.has_metadata {
        seq![error_issue("missing-metadata"@, Some(f.name), "feature is defined in `[features]` but missing metadata; add an entry under `[package.metadata.feature-manifest]`."@)]
    } else {
        Seq::empty()
    };
    let b: Seq<IssueModel> = if missing_description(f.metadata) {
        seq![error_issue("missing-description"@, Some(f.name), "feature metadata needs a non-empty `description`."@)]
    } else {
        Seq::empty()
    };
    let c = h.skip((a.len() + b.len()) as int);
    assert(h == a + b + c);
    if c.len() == 1 {
        assert(c[0] == h[(a.len() + b.len()) as int]);
    }
    lemma_lack_concat(a, b, code);
    lemma_lack_concat(a + b, c, code);
}

/// Findings about references carry only reference codes.
pub proof fn lemma_refs_lack(m: ManifestModel, source: Seq<char>, public: bool, refs: Seq<RefModel>, code: Seq<char>)
    requires
        !feature_code(code),
    ensures
        lacks_code(refs_issues(m, source, public, refs), code),
        lacks_code(unknown_ref_issues(source, refs), code),
    decreases refs.len(),
{
    if refs.len() > 0 {
        lemma_refs_lack(m, source, public, refs.drop_last(), code);
        lemma_lack_concat(refs_issues(m, source, public, refs.drop_last()), ref_issues(m, source, public, refs.last()), code);
        lemma_lack_concat(unknown_ref_issues(source, refs.drop_last()), unknown_ref_issue(source, refs.last()), code);
    }
}

/// Findings about features carry only feature codes.
pub proof fn lemma_features_lack(m: ManifestModel, fs: Seq<FeatureModel>, code: Seq<char>)
    requires
        !feature_code(code),
    ensures
        lacks_code(features_issues(m, fs), code),
    decreases fs.len(),
{
    if fs.len() > 0 {
        let f = fs.last();
        lemma_features_lack(m, fs.drop_last(), code);
        lemma_head_lack(f, code);
        lemma_refs_lack(m, f.name, f.metadata.public, f.enables, code);
        let h = head_issues(f);
        let u = unknown_ref_issues(f.name, f.enables);
        let r = refs_issues(m, f.name, f.metadata.public, f.enables);
        lemma_lack_concat(h, u, code);
        lemma_lack_concat(h + u, r, code);
        assert(feature_issues(m, f) == h + u + r);
        lemma_lack_concat(features_issues(m, fs.drop_last()), feature_issues(m, f), code);
    }
}

/// Findings about cycles carry only the cycle code.
pub proof fn lemma_cycles_lack(cs: Seq<Seq<Seq<char>>>, code: Seq<char>)
    requires
        code != "feature-cycle"@,
    ensures
        lacks_code(cycles_issues(cs), code),
    decreases cs.len(),
{
    if cs.len() > 0 {
        lemma_cycles_lack(cs.drop_last(), code);
        lemma_lack_concat(cycles_issues(cs.drop_last()), cycle_name_issues(sorted_set(cs.last()), join(cs.last(), " -> "@)), code);
    }
}

/// Findings about default members carry only their two codes.
pub proof fn lemma_defaults_lack(m: ManifestModel, rs: Seq<RefModel>, code: Seq<char>)
    requires
        !default_code(code),
    ensures
        lacks_code(defaults_issues(m, rs), code),
    decreases rs.len(),
{
    if rs.len() > 0 {
        lemma_defaults_lack(m, rs.drop_last(), code);
        lemma_lack_concat(defaults_issues(m, rs.drop_last()), default_member_issues(m, rs.last()), code);
    }
}

/// Findings about group members carry only member codes.
pub proof fn lemma_members_lack(m: ManifestModel, group: Seq<char>, ms: Seq<Seq<char>>, code: Seq<char>)
    requires
        !member_code(code),
    ensures
        lacks_code(members_issues(m, group, ms), code),
    decreases ms.len(),
{
    if ms.len() > 0 {
        lemma_members_lack(m, group, ms.drop_last(), code);
        lemma_lack_concat(members_issues(m, group, ms.drop_last()), member_issues(m, group, ms.drop_last(), ms.last()), code);
    }
}

/// The parts of a group's findings: its size, its members, and its defaults.
pub proof fn lemma_group_parts(m: ManifestModel, g: GroupModel)
    ensures
        ({
            let small: Seq<IssueModel> = if g.members.len() < 2 {
                seq![warning_issue("small-group"@, Some(g.name), "groups are most useful with at least two members."@)]
            } else {
                Seq::empty()
            };
            let mid = members_issues(m, g.name, g.members);
            let rest = group_issues(m, g).skip((small.len() + mid.len()) as int);
            &&& group_issues(m, g) == small + mid + rest
            &&& rest.len() == (if g.mutually_exclusive && default_names(m, g.members).len() > 1 { 1int } else { 0int })
            &&& rest.len() == 1 ==> rest[0].code == "mutually-exclusive-default"@ && rest[0].feature == Some(g.name)
        }),
{
    let small: Seq<IssueModel> = if g.members.len() < 2 {
        seq![warning_issue("small-group"@, Some(g.name), "groups are most useful with at least two members."@)]
    } else {
        Seq::empty()
    };
    let mid = members_issues(m, g.name, g.members);
    let rest = group_issues(m, g).skip((small.len() + mid.len()) as int);
    assert(group_issues(m, g) == small + mid + rest);
    if rest.len() == 1 {
        assert(rest[0] == group_issues(m, g)[(small.len() + mid.len()) as int]);
    }
}

/// Findings about groups carry only group and member codes.
pub proof fn lemma_groups_lack(m: ManifestModel, gs: Seq<GroupModel>, code: Seq<char>)
    requires
        !member_code(code),
        code != "small-group"@,
        code != "mutually-exclusive-default"@,
    ensures
        lacks_code(groups_issues(m, gs), code),
    decreases gs.len(),
{
    if gs.len() > 0 {
        lemma_groups_lack(m, gs.drop_last(), code);
        let g = gs.last();
        lemma_members_lack(m, g.name, g.members, code);
        lemma_group_parts(m, g);
        let small: Seq<IssueModel> = if g.members.len() < 2 {
            seq![warning_issue("small-group"@, Some(g.name), "groups are most useful with at least two members."@)]
        } else {
            Seq::empty()
        };
        let mid = members_issues(m, g.name, g.members);
        let rest = group_issues(m, g).skip((small.len() + mid.len()) as int);
        lemma_lack_concat(small, mid, code);
        lemma_lack_concat(small + mid, rest, code);
        lemma_lack_concat(groups_issues(m, gs.drop_last()), group_issues(m, g), code);
    }
}

/// A list without a code mentions no issue of it.
pub proof fn lemma_lacks_mentions(v: Seq<IssueModel>, code: Seq<char>, name: Seq<char>)
    requires
        lacks_code(v, code),
    ensures
        !mentions_issue(v, code, name),
{
    if mentions_issue(v, code, name) {
        let j = choose|j: int| 0 <= j < v.len() && (#[trigger] v[j]).code == code && v[j].feature == Some(name);
        assert(v[j].code != code);
    }
}

/// For a manifest without a lint table, plain validation reports
/// `unknown-metadata` about a name exactly when a metadata entry of that name
/// matches no declared feature.
pub proof fn law_stale_metadata_reported(m: ManifestModel, name: Seq<char>)
    requires
        m.lint_overrides.len() == 0,
    ensures
        mentions_issue(validation_issues(m, Seq::empty(), None), "unknown-metadata"@, name) == exists|k: int|
            0 <= k < m.metadata_only.len() && (#[trigger] m.metadata_only[k]).0 == name,
{
    let code = "unknown-metadata"@;
    let a = features_issues(m, m.features);
    let b = cycles_issues(crate::cycles::feature_cycles(m.features));
    let c = metadata_only_issues(m.metadata_only);
    let d = defaults_issues(m, m.default_members);
    let e = groups_issues(m, m.groups);
    lemma_stale_code_distinct();
    lemma_features_lack(m, m.features, code);
    lemma_cycles_lack(crate::cycles::feature_cycles(m.features), code);
    lemma_defaults_lack(m, m.default_members, code);
    lemma_groups_lack(m, m.groups, code);
    lemma_lack_concat(a, b, code);
    lemma_lack_concat(d, e, code);
    lemma_lacks_mentions(a + b, code, name);
    lemma_lacks_mentions(d + e, code, name);
    assert(raw_issues(m) == (a + b) + (c + (d + e)));
    lemma_mentions_concat(a + b, c + (d + e), code, name);
    lemma_mentions_concat(c, d + e, code, name);
    lemma_levels_keep_mentions(raw_issues(m), m, code, name);
    if mentions_issue(c, code, name) {
        let j = choose|j: int| 0 <= j < c.len() && (#[trigger] c[j]).code == code && c[j].feature == Some(name);
        assert(m.metadata_only[j].0 == name);
    }
    if exists|k: int| 0 <= k < m.metadata_only.len() && (#[trigger] m.metadata_only[k]).0 == name {
        let k = choose|k: int| 0 <= k < m.metadata_only.len() && (#[trigger] m.metadata_only[k]).0 == name;
        assert(c[k].code == code && c[k].feature == Some(name));
    }
}


/// A list without a code counts none of it.
pub proof fn lemma_count_lacks(v: Seq<IssueModel>, code: Seq<char>, name: Seq<char>)
    requires
        lacks_code(v, code),
    ensures
        issue_count(v, code, name) == 0,
    decreases v.len(),
{
    if v.len() > 0 {
        assert forall|j: int| 0 <= j < v.drop_last().len() implies (#[trigger] v.drop_last()[j]).code != code by {
            assert(v.drop_last()[j] == v[j]);
        }
        lemma_count_lacks(v.drop_last(), code, name);
        assert(v[v.len() - 1].code != code);
    }
}

/// The codes reported about a group as a whole.
pub open spec fn group_code(code: Seq<char>) -> bool {
    code == "small-group"@ || code == "mutually-exclusive-default"@
}

/// When a group gets the finding of a code about the group as a whole:
/// `small-group` when it has fewer than two members, and
/// `mutually-exclusive-default` when it is mutually exclusive and more than one
/// of its members is a default-enabled feature.
pub open spec fn group_condition(m: ManifestModel, code: Seq<char>, g: GroupModel) -> bool {
    if code == "small-group"@ {
        g.members.len() < 2
    } else {
        g.mutually_exclusive && default_names(m, g.members).len() > 1
    }
}

/// Whether the groups of a list have pairwise distinct names.
pub open spec fn group_names_distinct(gs: Seq<GroupModel>) -> bool {
    forall|i: int, j: int| 0 <= i < j < gs.len() ==> (#[trigger] gs[i]).name != (#[trigger] gs[j]).name
}

/// How many groups of a list carry a name and meet the condition of a code.
pub open spec fn group_count(m: ManifestModel, gs: Seq<GroupModel>, code: Seq<char>, name: Seq<char>) -> nat
    decreases gs.len(),
{
    if gs.len() == 0 {
        0
    } else {
        group_count(m, gs.drop_last(), code, name) + (if gs.last().name == name && group_condition(m, code, gs.last()) {
            1nat
        } else {
            0nat
        })
    }
}

/// A group's findings count a code about the group once when it carries the
/// name and meets the condition, else not at all.
pub proof fn lemma_group_count(m: ManifestModel, g: GroupModel, code: Seq<char>, name: Seq<char>)
    requires
        group_code(code),
    ensures
        issue_count(group_issues(m, g), code, name) == (if g.name == name && group_condition(m, code, g) {
            1nat
        } else {
            0nat
        }),
{
    lemma_group_codes_distinct();
    lemma_group_parts(m, g);
    let small: Seq<IssueModel> = if g.members.len() < 2 {
        seq![warning_issue("small-group"@, Some(g.name), "groups are most useful with at least two members."@)]
    } else {
        Seq::empty()
    };
    let mid = members_issues(m, g.name, g.members);
    let rest = group_issues(m, g).skip((small.len() + mid.len()) as int);
    lemma_members_lack(m, g.name, g.members, code);
    lemma_count_lacks(mid, code, name);
    lemma_count_short(small, code, name);
    lemma_count_short(rest, code, name);
    lemma_count_concat(small, mid, code, name);
    lemma_count_concat(small + mid, rest, code, name);
}

/// The findings of a list of groups count a code about groups once for each
/// group that carries the name and meets the condition.
pub proof fn lemma_groups_count(m: ManifestModel, gs: Seq<GroupModel>, code: Seq<char>, name: Seq<char>)
    requires
        group_code(code),
    ensures
        issue_count(groups_issues(m, gs), code, name) == group_count(m, gs, code, name),
    decreases gs.len(),
{
    if gs.len() > 0 {
        lemma_groups_count(m, gs.drop_last(), code, name);
        lemma_group_count(m, gs.last(), code, name);
        lemma_count_concat(groups_issues(m, gs.drop_last()), group_issues(m, gs.last()), code, name);
    }
}

/// Groups none of which carries a name count nothing for it.
pub proof fn lemma_group_count_absent(m: ManifestModel, gs: Seq<GroupModel>, code: Seq<char>, name: Seq<char>)
    requires
        forall|i: int| 0 <= i < gs.len() ==> (#[trigger] gs[i]).name != name,
    ensures
        group_count(m, gs, code, name) == 0,
    decreases gs.len(),
{
    if gs.len() > 0 {
        let init = gs.drop_last();
        assert forall|i: int| 0 <= i < init.len() implies (#[trigger] init[i]).name != name by {
            assert(init[i] == gs[i]);
        }
        lemma_group_count_absent(m, init, code, name);
        assert(gs[gs.len() - 1].name != name);
    }
}

/// With distinct group names, the one group of a name decides the count.
pub proof fn lemma_group_count_distinct(m: ManifestModel, gs: Seq<GroupModel>, k: int, code: Seq<char>)
    requires
        group_names_distinct(gs),
        0 <= k < gs.len(),
    ensures
        group_count(m, gs, code, gs[k].name) == (if group_condition(m, code, gs[k]) { 1nat } else { 0nat }),
    decreases gs.len(),
{
    let name = gs[k].name;
    let init = gs.drop_last();
    assert(group_names_distinct(init)) by {
        assert forall|i: int, j: int| 0 <= i < j < init.len() implies (#[trigger] init[i]).name != (#[trigger] init[j]).name by {
            assert(init[i] == gs[i] && init[j] == gs[j]);
        }
    }
    if k == gs.len() - 1 {
        assert forall|i: int| 0 <= i < init.len() implies (#[trigger] init[i]).name != name by {
            assert(init[i] == gs[i]);
        }
        lemma_group_count_absent(m, init, code, name);
    } else {
        assert(init[k] == gs[k]);
        lemma_group_count_distinct(m, init, k, code);
        assert(gs[k].name != gs[gs.len() - 1].name);
    }
}

/// For a manifest with distinct group names and no lint table, plain
/// validation reports `small-group` about a group once when it has fewer than
/// two members, and `mutually-exclusive-default` once when it is mutually
/// exclusive with more than one default-enabled member; never otherwise.
pub proof fn law_group_findings_reported_once(m: ManifestModel, k: int, code: Seq<char>)
    requires
        group_names_distinct(m.groups),
        m.lint_overrides.len() == 0,
        0 <= k < m.groups.len(),
        group_code(code),
    ensures
        issue_count(validation_issues(m, Seq::empty(), None), code, m.groups[k].name) == (if group_condition(
            m,
            code,
            m.groups[k],
        ) {
            1nat
        } else {
            0nat
        }),
{
    let name = m.groups[k].name;
    lemma_group_codes_distinct();
    let a = features_issues(m, m.features);
    let b = cycles_issues(crate::cycles::feature_cycles(m.features));
    let c = metadata_only_issues(m.metadata_only);
    let d = defaults_issues(m, m.default_members);
    let e = groups_issues(m, m.groups);
    lemma_features_lack(m, m.features, code);
    lemma_cycles_lack(crate::cycles::feature_cycles(m.features), code);
    lemma_defaults_lack(m, m.default_members, code);
    assert forall|j: int| 0 <= j < c.len() implies (#[trigger] c[j]).code != code by {
        assert(c[j].code == "unknown-metadata"@);
    }
    lemma_lack_concat(a, b, code);
    lemma_lack_concat(a + b, c, code);
    lemma_lack_concat(a + b + c, d, code);
    lemma_count_lacks(a + b + c + d, code, name);
    assert(raw_issues(m) == (a + b + c + d) + e);
    lemma_count_concat(a + b + c + d, e, code, name);
    lemma_groups_count(m, m.groups, code, name);
    lemma_group_count_distinct(m, m.groups, k, code);
    lemma_levels_keep_count(raw_issues(m), m, code, name);
}

/// With feature names in strictly ascending order, a group member counts as
/// default-enabled exactly when some feature of its name is enabled by default.
pub proof fn law_default_member_test(m: ManifestModel, name: Seq<char>)
    requires
        crate::model::names_ascending(m.features),
    ensures
        default_enabled_feature(m, name) == exists|j: int|
            0 <= j < m.features.len() && (#[trigger] m.features[j]).name == name && m.features[j].default_enabled,
{
    crate::model::lemma_feature_index(m.features, name);
    crate::order::lemma_str_less_irreflexive(name);
    if exists|j: int| 0 <= j < m.features.len() && (#[trigger] m.features[j]).name == name && m.features[j].default_enabled {
        let j = choose|j: int| 0 <= j < m.features.len() && (#[trigger] m.features[j]).name == name && m.features[j].default_enabled;
        let i = feature_index(m.features, name)->Some_0;
        if i < j {
            assert(crate::order::str_less(m.features[i].name, m.features[j].name));
        } else if j < i {
            assert(crate::order::str_less(m.features[j].name, m.features[i].name));
        }
    }
}


/// Whether a list of issues holds an error of `code` about feature `name`.
pub open spec fn reports_error(v: Seq<IssueModel>, code: Seq<char>, name: Seq<char>) -> bool {
    exists|j: int|
        0 <= j < v.len() && (#[trigger] v[j]).code == code && v[j].feature == Some(name) && v[j].severity
            == Severity::Error
}

/// An error in either list is in the joined list.
pub proof fn lemma_reports_concat(a: Seq<IssueModel>, b: Seq<IssueModel>, code: Seq<char>, name: Seq<char>)
    ensures
        (reports_error(a, code, name) || reports_error(b, code, name)) ==> reports_error(a + b, code, name),
{
    if reports_error(a, code, name) {
        let j = choose|j: int|
            0 <= j < a.len() && (#[trigger] a[j]).code == code && a[j].feature == Some(name) && a[j].severity
                == Severity::Error;
        assert((a + b)[j] == a[j]);
    } else if reports_error(b, code, name) {
        let j = choose|j: int|
            0 <= j < b.len() && (#[trigger] b[j]).code == code && b[j].feature == Some(name) && b[j].severity
                == Severity::Error;
        assert((a + b)[a.len() + j] == b[j]);
    }
}

/// No preset gives the unknown-feature-reference code a level.
pub proof fn lemma_reference_code_unleveled(p: Option<LintPreset>)
    ensures
        preset_level(p, "unknown-feature-reference"@) is None,
{
    law_lint_codes_distinct();
    let k = known_codes();
    assert forall|b: int| 0 <= b < 16 && b != 4 implies k[4] != #[trigger] k[b] by {
        assert(k.no_duplicates());
    }
    assert(k[0] == "missing-metadata"@ && k[1] == "missing-description"@ && k[2] == "sensitive-default"@);
    assert(k[3] == "unknown-reference"@ && k[4] == "unknown-feature-reference"@ && k[5] == "unknown-metadata"@);
    assert(k[6] == "unknown-default-member"@ && k[7] == "unknown-default-reference"@ && k[8] == "small-group"@);
    assert(k[9] == "duplicate-group-member"@ && k[10] == "unknown-group-member"@);
    assert(k[11] == "mutually-exclusive-default"@ && k[12] == "dependency-not-found"@);
    assert(k[13] == "dependency-not-optional"@ && k[14] == "private-enabled-by-public"@ && k[15] == "feature-cycle"@);
}

/// Without a lint table or CLI overrides, an error of a code that no preset
/// levels stays an error after the levels are applied.
pub proof fn lemma_levels_keep_error(issues: Seq<IssueModel>, m: ManifestModel, code: Seq<char>, name: Seq<char>)
    requires
        m.lint_overrides.len() == 0,
        preset_level(m.lint_preset, code) is None,
        reports_error(issues, code, name),
    ensures
        reports_error(apply_levels(issues, Seq::empty(), None, m), code, name),
    decreases issues.len(),
{
    let init = issues.drop_last();
    let i = issues.last();
    let l = leveled(i, effective_level(Seq::empty(), None, m, i.code));
    lemma_key_value_empty(i.code);
    let j = choose|j: int|
        0 <= j < issues.len() && (#[trigger] issues[j]).code == code && issues[j].feature == Some(name)
            && issues[j].severity == Severity::Error;
    if j < issues.len() - 1 {
        assert(init[j] == issues[j]);
        lemma_levels_keep_error(init, m, code, name);
        lemma_reports_concat(apply_levels(init, Seq::empty(), None, m), l, code, name);
    } else {
        assert(effective_level(Seq::empty(), None, m, i.code) is None);
        assert(l == seq![i]);
        assert(l[0] == i);
        lemma_reports_concat(apply_levels(init, Seq::empty(), None, m), l, code, name);
    }
}

/// The findings about a feature's references hold an unknown-feature-reference
/// error for each plain reference to a name that is neither a declared
/// feature nor an optional dependency.
pub proof fn lemma_refs_report_unknown(m: ManifestModel, source: Seq<char>, public: bool, refs: Seq<RefModel>, j: int)
    requires
        0 <= j < refs.len(),
        refs[j] matches RefModel::Feature(n) && feature_index(m.features, n) is None && !optional_dependency(m, n),
    ensures
        reports_error(refs_issues(m, source, public, refs), "unknown-feature-reference"@, source),
    decreases refs.len(),
{
    let init = refs.drop_last();
    if j < refs.len() - 1 {
        assert(init[j] == refs[j]);
        lemma_refs_report_unknown(m, source, public, init, j);
        lemma_reports_concat(refs_issues(m, source, public, init), ref_issues(m, source, public, refs.last()), "unknown-feature-reference"@, source);
    } else {
        let last = ref_issues(m, source, public, refs.last());
        assert(last.len() == 1 && last[0].code == "unknown-feature-reference"@ && last[0].feature == Some(source)
            && last[0].severity == Severity::Error);
        lemma_reports_concat(refs_issues(m, source, public, init), last, "unknown-feature-reference"@, source);
    }
}

/// The findings about a list of features hold an unknown-feature-reference
/// error about each feature with such a plain reference.
pub proof fn lemma_features_report_unknown(m: ManifestModel, fs: Seq<FeatureModel>, k: int, j: int)
    requires
        0 <= k < fs.len(),
        0 <= j < fs[k].enables.len(),
        fs[k].enables[j] matches RefModel::Feature(n) && feature_index(m.features, n) is None && !optional_dependency(m, n),
    ensures
        reports_error(features_issues(m, fs), "unknown-feature-reference"@, fs[k].name),
    decreases fs.len(),
{
    let init = fs.drop_last();
    let code = "unknown-feature-reference"@;
    if k < fs.len() - 1 {
        assert(init[k] == fs[k]);
        lemma_features_report_unknown(m, init, k, j);
        lemma_reports_concat(features_issues(m, init), feature_issues(m, fs.last()), code, fs[k].name);
    } else {
        let f = fs.last();
        lemma_refs_report_unknown(m, f.name, f.metadata.public, f.enables, j);
        let h = head_issues(f) + unknown_ref_issues(f.name, f.enables);
        lemma_reports_concat(h, refs_issues(m, f.name, f.metadata.public, f.enables), code, f.name);
        lemma_reports_concat(features_issues(m, init), feature_issues(m, f), code, f.name);
    }
}

/// For a manifest without a lint table, a feature that enables a plain name
/// that is neither a declared feature nor an optional dependency gets an
/// unknown-feature-reference error, whatever dependencies the manifest
/// declares.
pub proof fn law_unknown_reference_is_an_error(m: ManifestModel, k: int, j: int, n: Seq<char>)
    requires
        m.lint_overrides.len() == 0,
        0 <= k < m.features.len(),
        0 <= j < m.features[k].enables.len(),
        m.features[k].enables[j] == RefModel::Feature(n),
        forall|i: int| 0 <= i < m.features.len() ==> (#[trigger] m.features[i]).name != n,
        forall|d: int| 0 <= d < m.dependencies.len() && (#[trigger] m.dependencies[d]).key == n ==> !m.dependencies[d].optional,
    ensures
        reports_error(validation_issues(m, Seq::empty(), None), "unknown-feature-reference"@, m.features[k].name),
{
    let code = "unknown-feature-reference"@;
    crate::model::lemma_feature_index(m.features, n);
    lemma_dependency_index(m.dependencies, n);
    lemma_features_report_unknown(m, m.features, k, j);
    let a = features_issues(m, m.features);
    let rest = cycles_issues(crate::cycles::feature_cycles(m.features)) + metadata_only_issues(m.metadata_only)
        + defaults_issues(m, m.default_members) + groups_issues(m, m.groups);
    assert(raw_issues(m) == a + rest);
    lemma_reports_concat(a, rest, code, m.features[k].name);
    lemma_reference_code_unleveled(m.lint_preset);
    lemma_levels_keep_error(raw_issues(m), m, code, m.features[k].name);
}


/// The findings about a feature's references mention a private-enabled-by-
/// public warning when the feature is public and a plain reference names a
/// private declared feature.
pub proof fn lemma_refs_mention_private(m: ManifestModel, source: Seq<char>, refs: Seq<RefModel>, j: int)
    requires
        0 <= j < refs.len(),
        refs[j] matches RefModel::Feature(n) && feature_index(m.features, n) matches Some(i) && !m.features[i].metadata.public,
    ensures
        mentions_issue(refs_issues(m, source, true, refs), "private-enabled-by-public"@, source),
    decreases refs.len(),
{
    let init = refs.drop_last();
    let code = "private-enabled-by-public"@;
    let last = ref_issues(m, source, true, refs.last());
    lemma_mentions_concat(refs_issues(m, source, true, init), last, code, source);
    if j < refs.len() - 1 {
        assert(init[j] == refs[j]);
        lemma_refs_mention_private(m, source, init, j);
    } else {
        assert(last[0].code == code && last[0].feature == Some(source));
    }
}

/// For a manifest without a lint table, a public feature that enables a
/// declared feature all of whose declarations are private is warned about
/// with private-enabled-by-public.
pub proof fn law_public_enabling_private_is_reported(m: ManifestModel, k: int, j: int, n: Seq<char>)
    requires
        m.lint_overrides.len() == 0,
        0 <= k < m.features.len(),
        m.features[k].metadata.public,
        0 <= j < m.features[k].enables.len(),
        m.features[k].enables[j] == RefModel::Feature(n),
        exists|i: int| 0 <= i < m.features.len() && (#[trigger] m.features[i]).name == n,
        forall|i: int| 0 <= i < m.features.len() && (#[trigger] m.features[i]).name == n ==> !m.features[i].metadata.public,
    ensures
        mentions_issue(validation_issues(m, Seq::empty(), None), "private-enabled-by-public"@, m.features[k].name),
{
    let code = "private-enabled-by-public"@;
    let name = m.features[k].name;
    crate::model::lemma_feature_index(m.features, n);
    let fs = m.features;
    assert(mentions_issue(features_issues(m, fs), code, name)) by {
        lemma_features_mention_private(m, fs, k, j);
    }
    let a = features_issues(m, fs);
    let rest = cycles_issues(crate::cycles::feature_cycles(m.features)) + metadata_only_issues(m.metadata_only)
        + defaults_issues(m, m.default_members) + groups_issues(m, m.groups);
    assert(raw_issues(m) == a + rest);
    lemma_mentions_concat(a, rest, code, name);
    lemma_levels_keep_mentions(raw_issues(m), m, code, name);
}

/// The findings about a list of features mention the private-enabled-by-
/// public warning about each public feature enabling a private one.
pub proof fn lemma_features_mention_private(m: ManifestModel, fs: Seq<FeatureModel>, k: int, j: int)
    requires
        0 <= k < fs.len(),
        fs[k].metadata.public,
        0 <= j < fs[k].enables.len(),
        fs[k].enables[j] matches RefModel::Feature(n) && feature_index(m.features, n) matches Some(i) && !m.features[i].metadata.public,
    ensures
        mentions_issue(features_issues(m, fs), "private-enabled-by-public"@, fs[k].name),
    decreases fs.len(),
{
    let init = fs.drop_last();
    let code = "private-enabled-by-public"@;
    lemma_mentions_concat(features_issues(m, init), feature_issues(m, fs.last()), code, fs[k].name);
    if k < fs.len() - 1 {
        assert(init[k] == fs[k]);
        lemma_features_mention_private(m, init, k, j);
    } else {
        let f = fs.last();
        lemma_refs_mention_private(m, f.name, f.enables, j);
        let h = head_issues(f) + unknown_ref_issues(f.name, f.enables);
        lemma_mentions_concat(h, refs_issues(m, f.name, f.metadata.public, f.enables), code, f.name);
    }
}

} // verus!
