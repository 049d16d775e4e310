//! Citation-formatting core over hayagriva: diagnostics for BibLaTeX
//! sources, the JSON documents handed to a host, the context that holds the
//! loaded bibliography, style and locale, and the reports of the
//! command-line renderer.

pub mod bibliography;
pub mod bindings;
pub mod chars;
pub mod cli;
pub mod ctx;
pub mod diagnostics;
pub mod document;
pub mod json;
pub mod laws;
pub mod styles;
pub mod terminal;
