//! Verified parser for the Quelle query language.
//!
//! The library parses a textual search/command language: boolean
//! connectives, proximity phrase groups, field-restricted terms, quoted
//! literals with escapes, numeric citation references and administrative
//! directives.  A parse either yields an immutable node tree whose spans
//! partition the input, or a position-precise diagnostic describing the
//! furthest failure.  The grammar semantics are stated as specification
//! functions, and the executable engine is proved to return exactly what
//! the semantics prescribe.

pub mod rules;
pub mod tree;
pub mod grammar;
pub mod engine;
pub mod encoding;
pub mod diag;
pub mod parser;
pub mod laws;
