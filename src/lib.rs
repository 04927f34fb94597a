//! Ingests a translation-memory corpus into a relational store.
//!
//! Documents are parsed into translation units ([tmx]), filtered by language
//! ([types]), and turned by the [writer] into store operations: a document row
//! on first sight of a name, a language column on first sight of a language,
//! and row inserts committed in batches. The [script] writer renders the same
//! rows as an SQL script. Every function here is verified.
pub mod cli;
pub mod functions;
pub mod lang;
pub mod script;
pub mod sql;
pub mod tmx;
pub mod types;
pub mod writer;
