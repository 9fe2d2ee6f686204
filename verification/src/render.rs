//! Markdown, Mermaid, and plain-text renderings of a workspace.

pub mod shared;
pub mod markdown;
pub mod mermaid;
pub mod explain;
