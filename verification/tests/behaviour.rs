use feature_manifest::docs::wrap_markdown_text;
use feature_manifest::commands::SchemaKind;
use feature_manifest::cycles::detect_feature_cycles;
use feature_manifest::doctor::{ci_check, doctor_verdict, DoctorCheck, DoctorLevel, WorkflowFile};
use feature_manifest::diff::{diff_lines, render_sync_diff, DiffLine};
use feature_manifest::docs_io::{
    marker_setup, MarkerSetup, append_markers, ensure_trailing_newline, inject_text, inspect_marker_source, marker_region,
    normalize_line_endings, output_text_matches, region_matches, InjectionMarkers, MarkerError,
};
use feature_manifest::model::{FeatureManifest, FeatureRef, LintLevel, LintPreset, MetadataLayout, WorkspaceManifest};
use feature_manifest::parse::{parse_manifest_str, ManifestError};
use feature_manifest::render::explain::{render_explain, ExplainError};
use feature_manifest::render::markdown::render_markdown;
use feature_manifest::render::mermaid::render_mermaid;
use feature_manifest::render::shared::{escape_markdown_cell, escape_mermaid_label, sanitize_id};
use feature_manifest::output::{github_annotations, sarif_results};
use feature_manifest::report::{change_summary, collect_reports, layout_name, pluralized};
use feature_manifest::source_map::SourceSpan;
use feature_manifest::metadata_edit::edit_metadata;
use feature_manifest::sync::{InlineValue, is_feature_entry_key, preview_sync_text, sync_entries, sync_report, SyncOptions};
use feature_manifest::validate::{
    known_lint_codes, parse_lint_override, validate, validate_with_options, LintOverrideError, Severity,
    ValidateOptions,
};

fn parse(source: &str) -> Result<FeatureManifest, ManifestError> {
    parse_manifest_str(source, "Cargo.toml")
}

fn workspace(manifest: FeatureManifest) -> WorkspaceManifest {
    WorkspaceManifest { root_manifest_path: "Cargo.toml".to_owned(), packages: vec![manifest] }
}

const CYCLIC: &str = r#"
[package]
name = "cyclic"

[features]
a = ["b"]
b = ["a", "dep:serde"]
c = []

[package.metadata.feature-manifest]
a = "A."
b = "B."
c = "C."
"#;

#[test]
fn reported_cycles_follow_enabling_references() {
    let manifest = parse(CYCLIC).unwrap();
    let cycles = detect_feature_cycles(&manifest);
    assert_eq!(cycles, vec![vec!["a".to_owned(), "b".to_owned(), "a".to_owned()]]);
    let report = validate(&manifest);
    assert!(report.issues.iter().any(|i| i.code == "feature-cycle"));
}

#[test]
fn features_are_kept_in_name_order() {
    let manifest = parse(
        r#"
[package]
name = "order"

[features]
zeta = []
alpha = []
mid = []
"#,
    )
    .unwrap();
    let names: Vec<&str> = manifest.features.iter().map(|f| f.name.as_str()).collect();
    assert_eq!(names, vec!["alpha", "mid", "zeta"]);
    assert_eq!(manifest.metadata_table, None);
    assert_eq!(manifest.metadata_layout, MetadataLayout::Structured);
}

#[test]
fn manifest_errors_name_the_offending_part() {
    assert_eq!(
        parse("[package]\nname = \"x\"\n[features]\na = 1\n").unwrap_err(),
        ManifestError::InvalidManifest("features".to_owned())
    );
}

#[test]
fn metadata_scalar_is_refused() {
    let err = parse("[package]\nname = \"x\"\n[package.metadata]\nfeature-manifest = 3\n").unwrap_err();
    assert_eq!(err, ManifestError::MetadataNotTable("feature-manifest".to_owned()));
}

#[test]
fn nested_features_scalar_is_refused() {
    let err = parse("[package]\nname = \"x\"\n[package.metadata.feature-manifest]\nfeatures = 3\n").unwrap_err();
    assert_eq!(err, ManifestError::FeaturesNotTable("feature-manifest".to_owned()));
}

#[test]
fn invalid_metadata_entry_is_refused() {
    let err = parse("[package]\nname = \"x\"\n[features]\na = []\n[package.metadata.feature-manifest]\na = 3\n")
        .unwrap_err();
    assert_eq!(err, ManifestError::InvalidFeatureMetadata("a".to_owned(), "feature-manifest".to_owned()));
}

#[test]
fn duplicate_metadata_entry_is_refused() {
    let err = parse(
        "[package]\nname = \"x\"\n[features]\na = []\n[package.metadata.feature-manifest]\na = \"A\"\n[package.metadata.feature-manifest.features]\na = \"again\"\n",
    )
    .unwrap_err();
    assert_eq!(err, ManifestError::DuplicateFeatureMetadata("a".to_owned(), "feature-manifest".to_owned()));
}

#[test]
fn invalid_groups_lints_and_preset_are_refused() {
    let base = "[package]\nname = \"x\"\n[package.metadata.feature-manifest]\n";
    assert_eq!(parse(&format!("{base}groups = 3\n")).unwrap_err(), ManifestError::InvalidGroups);
    assert_eq!(parse(&format!("{base}lints = 3\n")).unwrap_err(), ManifestError::InvalidLints);
    assert_eq!(parse(&format!("{base}preset = 3\n")).unwrap_err(), ManifestError::PresetNotString);
    assert_eq!(
        parse(&format!("{base}preset = \"loose\"\n")).unwrap_err(),
        ManifestError::UnknownPreset("loose".to_owned())
    );
    let ok = parse(&format!("{base}preset = \"adopt\"\n")).unwrap();
    assert_eq!(ok.lint_preset, Some(LintPreset::Adopt));
}

#[test]
fn feature_references_are_classified() {
    assert_eq!(FeatureRef::parse("serde"), FeatureRef::Feature { name: "serde".to_owned() });
    assert_eq!(FeatureRef::parse("dep:serde"), FeatureRef::Dependency { name: "serde".to_owned() });
    assert_eq!(
        FeatureRef::parse("tokio/rt"),
        FeatureRef::DependencyFeature { dependency: "tokio".to_owned(), feature: "rt".to_owned(), weak: false }
    );
    assert_eq!(FeatureRef::parse("tokio?/rt").raw(), "tokio?/rt");
}

#[test]
fn cli_override_beats_manifest_lint_level() {
    let manifest = parse(
        r#"
[package]
name = "demo"

[features]
alpha = []

[package.metadata.feature-manifest.lints]
missing-metadata = "deny"
"#,
    )
    .unwrap();
    let strict = validate(&manifest);
    assert!(strict.issues.iter().any(|i| i.code == "missing-metadata" && i.severity == Severity::Error));
    let relaxed = validate_with_options(
        &manifest,
        &ValidateOptions::with_cli_lint_overrides(vec![("missing-metadata".to_owned(), LintLevel::Warn)]),
    );
    let issue = relaxed.issues.iter().find(|i| i.code == "missing-metadata").unwrap();
    assert_eq!(issue.severity, Severity::Warning);
    assert_eq!(issue.default_severity, Severity::Error);
    assert_eq!(relaxed.has_errors(), relaxed.error_count() > 0);
}

#[test]
fn adopt_preset_turns_errors_into_warnings() {
    let manifest = parse("[package]\nname = \"demo\"\n[features]\nalpha = []\n[package.metadata.feature-manifest]\n")
        .unwrap();
    let report = validate_with_options(&manifest, &ValidateOptions::new().with_cli_preset(Some(LintPreset::Adopt)));
    assert!(report.issues.iter().any(|i| i.code == "missing-metadata"));
    assert_eq!(report.error_count(), 0);
    assert!(!report.has_errors());
}

#[test]
fn lint_override_strings_parse_or_report_why_not() {
    assert_eq!(
        parse_lint_override(" missing-metadata = warn "),
        Ok(("missing-metadata".to_owned(), LintLevel::Warn))
    );
    assert_eq!(
        parse_lint_override("missing-metadata"),
        Err(LintOverrideError::MissingSeparator("missing-metadata".to_owned()))
    );
    assert_eq!(parse_lint_override("nope=warn"), Err(LintOverrideError::UnknownCode("nope".to_owned())));
    assert_eq!(
        parse_lint_override("missing-metadata=loud"),
        Err(LintOverrideError::UnknownLevel("loud".to_owned()))
    );
    assert!(known_lint_codes().contains(&"feature-cycle"));
}

#[test]
fn summary_counts_features_groups_and_issues() {
    let manifest = parse(CYCLIC).unwrap();
    let report = validate(&manifest);
    assert_eq!(
        report.summary(3, 0),
        format!("validated 3 feature(s) and 0 group(s): {} error(s), {} warning(s)", report.error_count(), report.warning_count())
    );
}

#[test]
fn injected_region_reads_back_as_written() {
    let markers = InjectionMarkers::default();
    let doc = "# Title\n\n<!-- feature-manifest:start -->\nold\n<!-- feature-manifest:end -->\ntail\n";
    let injected = inject_text(doc, "new body\n", &markers).unwrap();
    assert_eq!(
        injected,
        "# Title\n\n<!-- feature-manifest:start -->\n\nnew body\n<!-- feature-manifest:end -->\ntail\n"
    );
    assert_eq!(region_matches(&injected, "new body", &markers), Ok(true));
    assert_eq!(region_matches(doc, "new body", &markers), Ok(false));
    assert_eq!(marker_region(&injected, &markers).unwrap(), "\n\nnew body\n");
    let report = inspect_marker_source("README.md", &injected, &markers);
    assert!(report.ready());
}

#[test]
fn marker_errors_cover_each_problem() {
    let markers = InjectionMarkers::default();
    assert_eq!(inject_text("nothing", "x", &markers), Err(MarkerError::MissingStart));
    assert_eq!(inject_text("<!-- feature-manifest:start -->", "x", &markers), Err(MarkerError::MissingEnd));
    assert_eq!(
        inject_text(
            "<!-- feature-manifest:start --><!-- feature-manifest:start --><!-- feature-manifest:end -->",
            "x",
            &markers
        ),
        Err(MarkerError::Duplicate)
    );
    assert_eq!(
        inject_text("<!-- feature-manifest:end --><!-- feature-manifest:start -->", "x", &markers),
        Err(MarkerError::Misordered)
    );
    assert_eq!(
        MarkerError::Duplicate.message("README.md", &markers),
        "document `README.md` has duplicate feature-manifest markers"
    );
}

#[test]
fn appended_markers_follow_existing_text() {
    let markers = InjectionMarkers::default();
    assert_eq!(
        append_markers("# Readme  \n\n", &markers, "## Features"),
        "# Readme\n\n## Features\n\n<!-- feature-manifest:start -->\n<!-- feature-manifest:end -->\n"
    );
}

#[test]
fn line_endings_do_not_make_output_stale() {
    assert_eq!(normalize_line_endings("a\r\nb\rc\n"), "a\nb\nc\n");
    assert_eq!(ensure_trailing_newline("abc"), "abc\n");
    assert_eq!(ensure_trailing_newline("abc\n"), "abc\n");
    assert!(output_text_matches("line one\r\nline two\r\n", "line one\nline two"));
    assert!(!output_text_matches("stale\n", "fresh"));
}

#[test]
fn diff_lists_kept_added_and_removed_lines() {
    let before = vec!["a".to_owned(), "b".to_owned()];
    let after = vec!["a".to_owned(), "c".to_owned()];
    assert_eq!(
        diff_lines(&before, &after),
        vec![DiffLine::Unchanged("a".to_owned()), DiffLine::Added("c".to_owned()), DiffLine::Removed("b".to_owned())]
    );
    assert_eq!(
        render_sync_diff("Cargo.toml", "a\nb\n", "a\nc\n"),
        "--- a/Cargo.toml\n+++ b/Cargo.toml\n@@ -1,2 +1,2 @@\n a\n+c\n-b\n"
    );
}

#[test]
fn sync_scaffolds_missing_entries_then_settles() {
    let manifest = parse(
        r#"
[package]
name = "demo"

[features]
alpha = []
beta = []

[package.metadata.feature-manifest]
alpha = "Alpha."
stale = "Gone."
"#,
    )
    .unwrap();
    let options = SyncOptions { check_only: false, remove_stale: true, style: None };
    let report = sync_report(&manifest, &options);
    assert_eq!(report.added_features, vec!["beta".to_owned()]);
    assert_eq!(report.removed_features, vec!["stale".to_owned()]);
    assert!(report.changed());
    assert_eq!(change_summary(&report), "added 1 feature, removed 1 stale metadata entry, using `flat` layout");
    let entries = sync_entries(&manifest, &report.added_features, true);
    let keys: Vec<&str> = entries.iter().map(|(k, _)| k.as_str()).collect();
    assert_eq!(keys, vec!["alpha", "beta"]);
    assert!(is_feature_entry_key("alpha"));
    assert!(!is_feature_entry_key("groups"));
}

#[test]
fn counts_and_layouts_read_naturally() {
    assert_eq!(pluralized(1, "feature"), "1 feature");
    assert_eq!(pluralized(3, "feature"), "3 features");
    assert_eq!(layout_name(MetadataLayout::Structured), "structured");
}

#[test]
fn renderers_escape_their_special_characters() {
    assert_eq!(escape_markdown_cell("a|b"), "a\\|b");
    assert_eq!(sanitize_id("tokio?/rt"), "tokio__rt");
    assert_eq!(escape_mermaid_label("say \"hi\"\nnow"), "say \\\"hi\\\"\\nnow");
}

#[test]
fn explain_reports_missing_features() {
    let manifest = parse(CYCLIC).unwrap();
    let ws = workspace(manifest);
    let text = render_explain(&ws, "a", false).unwrap();
    assert!(text.contains("Feature: `a`"));
    assert_eq!(render_explain(&ws, "nope", false), Err(ExplainError::FeatureNotFound("nope".to_owned())));
}

#[test]
fn markdown_and_mermaid_cover_every_public_feature() {
    let manifest = parse(CYCLIC).unwrap();
    let ws = workspace(manifest);
    let markdown = render_markdown(&ws, false);
    for name in ["`a`", "`b`", "`c`"] {
        assert!(markdown.contains(name));
    }
    let graph = render_mermaid(&ws, false);
    assert!(graph.starts_with("graph TD"));
}

const SPANNED: &str = "[package]\nname = \"spans\"\n\n[features]\nalpha = []\nbeta = []\n\n[package.metadata.feature-manifest]\nalpha = \"A.\"\nstale = \"S.\"\n";

#[test]
fn annotations_point_at_manifest_lines() {
    let ws = workspace(parse(SPANNED).unwrap());
    let reports = collect_reports(&ws, &Vec::new(), None).unwrap();
    let sources = vec![Some(SPANNED.to_owned())];
    let lines = github_annotations(&ws, &reports, &sources);
    assert!(lines
        .iter()
        .any(|l| l.starts_with("::error file=Cargo.toml,line=6,col=1,title=feature-manifest missing-metadata::package `spans` feature `beta`")));
    assert!(lines
        .iter()
        .any(|l| l.starts_with("::error file=Cargo.toml,line=10,col=1,title=feature-manifest unknown-metadata::")));
    let unlocated = github_annotations(&ws, &reports, &vec![None]);
    assert!(unlocated.iter().all(|l| l.starts_with("::error file=Cargo.toml,title=") || l.starts_with("::warning file=Cargo.toml,title=")));

    let results = sarif_results(&ws, &reports, &sources);
    let missing = results.iter().find(|r| r.rule_id == "missing-metadata").unwrap();
    assert_eq!(missing.span, Some(SourceSpan { line: 6, column: 1 }));
    assert_eq!(missing.level, "error");
    assert_eq!(missing.uri, "Cargo.toml");
}

#[test]
fn schema_kinds_name_their_files() {
    assert_eq!(SchemaKind::Metadata.file_name(), "feature-manifest.v1.schema.json");
    assert_eq!(SchemaKind::CheckReport.file_name(), "check-report.v1.schema.json");
}

#[test]
fn every_reported_code_is_registered() {
    let manifest = parse(
        r#"
[package]
name = "messy"

[features]
default = ["ghost", "weird//ref", "dep:missing"]
alpha = ["beta", "nowhere", "a//b"]
beta = ["alpha"]
solo = []

[package.metadata.feature-manifest]
alpha = { description = " ", public = false }
stale = "Gone."

[[package.metadata.feature-manifest.groups]]
name = "tiny"
members = ["solo", "solo", "absent"]
"#,
    )
    .unwrap();
    let report = validate(&manifest);
    assert!(report.issues.len() >= 8);
    let known = known_lint_codes();
    for issue in &report.issues {
        assert!(known.contains(&issue.code), "unregistered code {}", issue.code);
    }
}

#[test]
fn injection_keeps_the_text_around_the_markers() {
    let markers = InjectionMarkers::default();
    let doc = "before text\r\n<!-- feature-manifest:start -->\nold\n<!-- feature-manifest:end -->\r\nafter text\n";
    let injected = inject_text(doc, "  fresh\r\nlines  ", &markers).unwrap();
    assert!(injected.starts_with("before text\r\n<!-- feature-manifest:start -->"));
    assert!(injected.ends_with("<!-- feature-manifest:end -->\r\nafter text\n"));
    assert_eq!(region_matches(&injected, "fresh\nlines", &markers), Ok(true));
}

#[test]
fn marker_setup_appends_only_to_documents_without_markers() {
    let markers = InjectionMarkers::default();
    assert_eq!(
        marker_setup("", &markers, "## Features"),
        MarkerSetup::Append("## Features\n\n<!-- feature-manifest:start -->\n<!-- feature-manifest:end -->\n".to_owned())
    );
    assert_eq!(
        marker_setup("<!-- feature-manifest:start -->\n<!-- feature-manifest:end -->\n", &markers, "## Features"),
        MarkerSetup::Ready
    );
    assert_eq!(marker_setup("<!-- feature-manifest:end -->\n", &markers, "## Features"), MarkerSetup::Partial);
}

#[test]
fn doctor_fails_on_errors_and_on_warnings_when_strict() {
    let ok = DoctorCheck::ok("fine".to_owned());
    let warn = DoctorCheck::warn("hmm".to_owned(), "look".to_owned());
    let error = DoctorCheck::error("bad".to_owned(), "fix".to_owned());
    assert_eq!(doctor_verdict(&vec![ok.clone(), warn.clone()], false), None);
    assert_eq!(doctor_verdict(&vec![ok.clone(), warn.clone()], true), Some("doctor found warnings in strict mode"));
    assert_eq!(doctor_verdict(&vec![warn, error, ok], false), Some("doctor found errors"));
}

#[test]
fn errors_read_as_one_line() {
    assert_eq!(
        ManifestError::PresetNotString.message("Cargo.toml"),
        "failed to parse feature metadata from `Cargo.toml`: `preset` must be a string"
    );
    assert_eq!(
        ManifestError::InvalidToml("bad key".to_owned()).message("x/Cargo.toml"),
        "failed to parse manifest TOML from `x/Cargo.toml`: bad key"
    );
    assert_eq!(
        LintOverrideError::MissingSeparator("oops".to_owned()).message(),
        "expected `<lint>=<allow|warn|deny>`, found `oops`"
    );
    assert!(LintOverrideError::UnknownCode("nope".to_owned())
        .message()
        .starts_with("unknown lint code `nope`; known codes: missing-metadata, missing-description"));
}

#[test]
fn synced_entries_cover_exactly_the_declared_features() {
    let manifest = parse(
        "[package]\nname = \"x\"\n[features]\nb = []\na = []\n[package.metadata.feature-manifest]\nb = \"B.\"\nzz = \"old\"\n",
    )
    .unwrap();
    let report = sync_report(&manifest, &SyncOptions::default());
    let kept = sync_entries(&manifest, &report.added_features, false);
    let keys: Vec<&str> = kept.iter().map(|(k, _)| k.as_str()).collect();
    assert_eq!(keys, vec!["a", "b", "zz"]);
    let pruned = sync_entries(&manifest, &report.added_features, true);
    let keys: Vec<&str> = pruned.iter().map(|(k, _)| k.as_str()).collect();
    assert_eq!(keys, vec!["a", "b"]);
    assert_eq!(pruned[0].1.description.as_deref(), Some("TODO: describe `a`."));
}

#[test]
fn cycles_are_reported_exactly_when_present() {
    let diamond = parse(
        "[package]\nname = \"x\"\n[features]\na = [\"b\", \"c\"]\nb = [\"d\"]\nc = [\"d\"]\nd = []\n",
    )
    .unwrap();
    assert!(detect_feature_cycles(&diamond).is_empty());
    assert!(!validate(&diamond).issues.iter().any(|i| i.code == "feature-cycle"));

    let looped = parse("[package]\nname = \"x\"\n[features]\na = [\"a\"]\n").unwrap();
    assert_eq!(detect_feature_cycles(&looped), vec![vec!["a".to_owned(), "a".to_owned()]]);

    let long = parse(
        "[package]\nname = \"x\"\n[features]\na = [\"b\"]\nb = [\"c\"]\nc = [\"a\", \"d\"]\nd = []\n",
    )
    .unwrap();
    assert_eq!(
        detect_feature_cycles(&long),
        vec![vec!["a".to_owned(), "b".to_owned(), "c".to_owned(), "a".to_owned()]]
    );
}

#[test]
fn invalid_toml_is_reported_as_such() {
    assert!(matches!(parse("[package\nname = 1"), Err(ManifestError::InvalidToml(_))));
}

#[test]
fn sync_preview_rewrites_only_the_metadata_table() {
    let source = "[package]\nname = \"x\"\n# keep me\n\n[features]\nalpha = []\nbeta = []\n\n[package.metadata.feature-manifest]\nalpha = { description = \"Alpha.\" }\n";
    let preview = preview_sync_text(source, "Cargo.toml", &SyncOptions::default()).unwrap();
    assert_eq!(preview.report.added_features, vec!["beta".to_owned()]);
    let rewritten = preview.rewritten.unwrap();
    assert!(rewritten.contains("# keep me"));
    assert!(rewritten.contains("beta = { description = \"TODO: describe `beta`.\" }"));
    let again = preview_sync_text(&rewritten, "Cargo.toml", &SyncOptions::default()).unwrap();
    assert!(!again.report.would_change);
    assert_eq!(again.rewritten, None);

    let structured = SyncOptions { check_only: false, remove_stale: false, style: Some(MetadataLayout::Structured) };
    let moved = preview_sync_text(source, "Cargo.toml", &structured).unwrap().rewritten.unwrap();
    assert!(moved.contains("[package.metadata.feature-manifest.features]"));
    let reparsed = parse(&moved).unwrap();
    assert_eq!(reparsed.metadata_layout, MetadataLayout::Structured);
    assert!(reparsed.features.iter().all(|f| f.has_metadata));
}

#[test]
fn references_read_back_as_written() {
    for raw in ["serde", "dep:serde", "tokio/rt", "tokio?/rt", "a/b/c", " ", ""] {
        assert_eq!(FeatureRef::parse(raw).raw(), raw);
    }
}

#[test]
fn registry_codes_are_distinct() {
    let codes = known_lint_codes();
    for (i, a) in codes.iter().enumerate() {
        for b in &codes[i + 1..] {
            assert_ne!(a, b);
        }
    }
}

#[test]
fn cli_preset_only_relevels_plain_findings() {
    let manifest = parse("[package]\nname = \"x\"\n[features]\nalpha = []\nbeta = [\"weird//\"]\n[package.metadata.feature-manifest]\nalpha = \"A.\"\n")
        .unwrap();
    let plain = validate(&manifest);
    let strict = validate_with_options(&manifest, &ValidateOptions::new().with_cli_preset(Some(LintPreset::Strict)));
    assert_eq!(plain.issues.len(), strict.issues.len());
    for (p, s) in plain.issues.iter().zip(strict.issues.iter()) {
        assert_eq!(p.code, s.code);
        assert_eq!(p.feature, s.feature);
    }
}

#[test]
fn parsed_features_are_in_name_order_and_reverse_lookups_follow() {
    let manifest = parse("[package]\nname = \"x\"\n[features]\nzz = [\"std\"]\nstd = []\naa = [\"std\", \"dep:serde\"]\n").unwrap();
    let names: Vec<&str> = manifest.ordered_features().iter().map(|f| f.name.as_str()).collect();
    assert_eq!(names, vec!["aa", "std", "zz"]);
    let users: Vec<&str> = manifest.reverse_dependencies("std").iter().map(|f| f.name.as_str()).collect();
    assert_eq!(users, vec!["aa", "zz"]);
    assert!(manifest.reverse_dependencies("serde").is_empty());
}

#[test]
fn each_feature_gets_its_own_metadata_findings_once() {
    let manifest = parse(
        "[package]\nname = \"x\"\n[features]\ndefault = [\"hidden\"]\nbare = []\nblank = []\nhidden = []\n[package.metadata.feature-manifest]\nblank = { description = \"  \" }\nhidden = { description = \"H.\", public = false }\n",
    )
    .unwrap();
    let report = validate(&manifest);
    let count = |code: &str, name: &str| {
        report.issues.iter().filter(|i| i.code == code && i.feature.as_deref() == Some(name)).count()
    };
    assert_eq!(count("missing-metadata", "bare"), 1);
    assert_eq!(count("missing-metadata", "blank"), 0);
    assert_eq!(count("missing-metadata", "hidden"), 0);
    assert_eq!(count("missing-description", "blank"), 1);
    assert_eq!(count("missing-description", "hidden"), 0);
    assert_eq!(count("sensitive-default", "hidden"), 1);
    assert_eq!(count("sensitive-default", "bare"), 0);
}

#[test]
fn stale_metadata_is_reported_by_name() {
    let manifest = parse(
        "[package]\nname = \"x\"\n[features]\nkept = []\n[package.metadata.feature-manifest]\nkept = \"K.\"\ngone = \"G.\"\n",
    )
    .unwrap();
    let report = validate(&manifest);
    let stale: Vec<&str> =
        report.issues.iter().filter(|i| i.code == "unknown-metadata").filter_map(|i| i.feature.as_deref()).collect();
    assert_eq!(stale, vec!["gone"]);
}

#[test]
fn each_group_gets_its_own_findings_once() {
    let manifest = parse(
        r#"
[package]
name = "x"

[features]
default = ["a", "b"]
a = []
b = []
c = []

[package.metadata.feature-manifest]
a = "A."
b = "B."
c = "C."

[[package.metadata.feature-manifest.groups]]
name = "pair"
members = ["a", "b", "c"]
mutually_exclusive = true

[[package.metadata.feature-manifest.groups]]
name = "lonely"
members = ["c"]

[[package.metadata.feature-manifest.groups]]
name = "calm"
members = ["a", "c"]
mutually_exclusive = true
"#,
    )
    .unwrap();
    let report = validate(&manifest);
    let count = |code: &str, name: &str| {
        report.issues.iter().filter(|i| i.code == code && i.feature.as_deref() == Some(name)).count()
    };
    assert_eq!(count("mutually-exclusive-default", "pair"), 1);
    assert_eq!(count("mutually-exclusive-default", "calm"), 0);
    assert_eq!(count("mutually-exclusive-default", "lonely"), 0);
    assert_eq!(count("small-group", "lonely"), 1);
    assert_eq!(count("small-group", "pair"), 0);
    assert_eq!(count("small-group", "calm"), 0);
}

#[test]
fn wrapping_fills_each_line_before_breaking() {
    assert_eq!(wrap_markdown_text("aa bb cc dd", 5), "aa bb\\ncc dd");
    assert_eq!(wrap_markdown_text("aa bb cc dd", 8), "aa bb cc\\ndd");
    assert_eq!(wrap_markdown_text("aa bb cc dd", 11), "aa bb cc dd");
    assert_eq!(wrap_markdown_text("aaaaaaa b c", 5), "aaaaaaa\\nb c");
}

#[test]
fn sync_output_parses_keeps_comments_and_settles() {
    let mut source = String::from(
        "[package]\nname = \"generated-fixture\"\nversion = \"0.1.0\"\n\n# package comments should survive sync\n[features]\ndefault = []\n",
    );
    for name in ["a", "b-2", "z_9"] {
        source.push_str(&format!("{name} = []\n"));
    }
    let preview = preview_sync_text(&source, "Cargo.toml", &SyncOptions::default()).unwrap();
    assert!(preview.report.changed());
    let rewritten = preview.rewritten.unwrap();
    assert!(rewritten.contains("# package comments should survive sync"));
    let parsed = parse(&rewritten).unwrap();
    assert_eq!(parsed.features.len(), 3);
    assert!(parsed.features.iter().all(|feature| feature.has_metadata));
    let check = SyncOptions { check_only: true, remove_stale: true, style: Some(MetadataLayout::Structured) };
    let again = preview_sync_text(&rewritten, "Cargo.toml", &check).unwrap();
    assert!(!again.report.changed());
}

#[test]
fn metadata_rewrite_refuses_a_path_that_is_no_table_and_fills_the_right_table() {
    let mut document = "[package]\nmetadata = 3\n".parse::<toml_edit::DocumentMut>().unwrap();
    assert_eq!(
        edit_metadata(document.as_table_mut(), "feature-manifest", false, &Vec::new()),
        Err("expected `metadata` to be a TOML table while editing the manifest".to_owned())
    );

    let source = "# top\n[package]\nname = \"x\"\n\n[package.metadata.feature-manifest]\nold = \"Old.\"\ngroups = []\n\n[other]\nkept = 1\n";
    let entries = vec![("alpha".to_owned(), vec![("description".to_owned(), InlineValue::Text("A.".to_owned()))])];

    let mut flat = source.parse::<toml_edit::DocumentMut>().unwrap();
    assert_eq!(edit_metadata(flat.as_table_mut(), "feature-manifest", false, &entries), Ok(()));
    let table = flat["package"]["metadata"]["feature-manifest"].as_table().unwrap();
    let keys: Vec<&str> = table.iter().map(|(key, _)| key).collect();
    assert_eq!(keys, vec!["groups", "alpha"]);
    assert_eq!(flat["other"]["kept"].as_integer(), Some(1));
    assert!(flat.to_string().starts_with("# top\n"));

    let mut structured = source.parse::<toml_edit::DocumentMut>().unwrap();
    assert_eq!(edit_metadata(structured.as_table_mut(), "feature-manifest", true, &entries), Ok(()));
    let features = structured["package"]["metadata"]["feature-manifest"]["features"].as_table().unwrap();
    let keys: Vec<&str> = features.iter().map(|(key, _)| key).collect();
    assert_eq!(keys, vec!["alpha"]);
}

#[test]
fn injection_between_default_markers_keeps_both_sides() {
    let markers = InjectionMarkers::default();
    let doc = format!("intro, text\n{}\nold\n{}\noutro (end)\n", markers.start, markers.end);
    let injected = inject_text(&doc, "Fresh words. ", &markers).unwrap();
    assert_eq!(
        injected,
        format!("intro, text\n{}\n\nFresh words.\n{}\noutro (end)\n", markers.start, markers.end)
    );
    assert_eq!(region_matches(&injected, "Fresh words. ", &markers), Ok(true));
}

#[test]
fn crlf_checkouts_match_unless_the_contents_held_carriage_returns_before_breaks() {
    for contents in ["plain", "two\nlines", "lone\rreturn", ""] {
        let written = ensure_trailing_newline(contents);
        let checkout = written.replace('\n', "\r\n");
        assert!(output_text_matches(&checkout, contents), "{contents:?}");
    }
    let written = ensure_trailing_newline("a\r");
    assert!(!output_text_matches(&written.replace('\n', "\r\n"), "a\r"));
}

#[test]
fn ci_check_finds_the_first_yaml_workflow_mentioning_the_tool() {
    assert_eq!(ci_check(None).level, DoctorLevel::Warn);
    let files = vec![
        WorkflowFile { path: "ci/a.txt".to_owned(), extension: Some("txt".to_owned()), contents: Some("cargo fm".to_owned()) },
        WorkflowFile { path: "ci/b.yml".to_owned(), extension: Some("yml".to_owned()), contents: Some("cargo test".to_owned()) },
        WorkflowFile { path: "ci/c.yaml".to_owned(), extension: Some("yaml".to_owned()), contents: Some("run: cargo fm check".to_owned()) },
    ];
    let check = ci_check(Some(&files));
    assert_eq!(check.level, DoctorLevel::Pass);
    assert_eq!(check.message, "CI workflow references feature-manifest in `ci/c.yaml`");
    let mut without = files;
    without.pop();
    assert_eq!(ci_check(Some(&without)).level, DoctorLevel::Warn);
}
