//! Parses AVDL schema definitions into a schema tree and writes that tree as
//! AVSC JSON documents.
//!
//! `lex` holds the lexical primitives, `grammar` states the grammar as spec
//! functions, `parser` reads text by it, `value` reads field defaults with the
//! grammar that a field's schema selects, `float_limit` decides whether a
//! float literal stays finite, `schema` and `json` hold the data model,
//! `avsc` writes documents and canonical forms, and `laws` proves properties
//! that relate several of them.
pub mod avsc;
pub mod float_limit;
pub mod grammar;
pub mod json;
pub mod laws;
pub mod lex;
pub mod parser;
pub mod schema;
pub mod value;
