//! Scans source files, parses them with tree-sitter grammars and renders an
//! indented outline of their named syntax nodes.
pub mod grammar;
pub mod language;
pub mod outline;
pub mod scan;
pub mod syntax;
