//! Document, validate, and render Cargo feature metadata.

pub mod text;
pub mod model;
pub mod order;
pub mod validate;
pub mod cycles;
pub mod render;
pub mod docs_io;
pub mod diff;
pub mod toml_value;
pub mod parse;
pub mod sync;
pub mod source_map;
pub mod paths;
pub mod json_output;
pub mod report;
pub mod docs;
pub mod doctor;
pub mod discover;
pub mod output;
pub mod commands;
pub mod toml_text;
pub mod metadata_edit;
