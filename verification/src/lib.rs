//! Translation of KCL compiler diagnostics into Language Server Protocol
//! data: position mapping, path-to-URI normalization (with Windows
//! drive-letter lower-casing), severity and code mapping, and grouping of
//! multi-message diagnostics by file.

pub mod diag;
pub mod protocol;
pub mod to_lsp;
pub mod uri;
