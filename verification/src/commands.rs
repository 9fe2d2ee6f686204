//! The options of the setup, doctor, and schema commands, and the schema
//! documents the tool ships.

use vstd::prelude::*;

use crate::discover::PackageSelection;
use crate::model::MetadataLayout;

verus! {

/// What `cargo fm init` sets up.
#[derive(Debug, Clone)]
pub struct InitOptions {
    /// The manifest the workspace was loaded from.
    pub manifest_path: String,
    /// The packages selected.
    pub selection: PackageSelection,
    /// The README to create or update, if not the workspace's own.
    pub readme: Option<String>,
    /// Whether to skip README marker setup.
    pub no_readme: bool,
    /// Whether to add a GitHub Actions workflow.
    pub ci: bool,
    /// The metadata layout to write, if it should change.
    pub style: Option<MetadataLayout>,
    /// Whether to only print what would be done.
    pub dry_run: bool,
}

/// What `cargo fm doctor` inspects and how it reports.
#[derive(Debug, Clone)]
pub struct DoctorOptions {
    /// The README to inspect, if not the workspace's own.
    pub readme: Option<String>,
    /// Whether warnings fail the run.
    pub strict: bool,
    /// Whether to print the next action of each finding.
    pub explain: bool,
}

/// The JSON Schema documents the tool ships.
#[derive(Debug, Clone, Copy, PartialEq, Eq, Structural)]
pub enum SchemaKind {
    /// The schema of `cargo fm json`.
    Metadata,
    /// The schema of `cargo fm check --format json`.
    CheckReport,
}

/// The file that holds a schema.
pub open spec fn schema_file(kind: SchemaKind) -> Seq<char> {
    match kind {
        SchemaKind::Metadata => "feature-manifest.v1.schema.json"@,
        SchemaKind::CheckReport => "check-report.v1.schema.json"@,
    }
}

impl SchemaKind {
    /// The file, under `schemas/`, that holds the schema.
    pub fn file_name(&self) -> (r: &'static str)
        ensures
            r@ == schema_file(*self),
    {
        match self {
            SchemaKind::Metadata => "feature-manifest.v1.schema.json",
            SchemaKind::CheckReport => "check-report.v1.schema.json",
        }
    }
}

} // verus!
