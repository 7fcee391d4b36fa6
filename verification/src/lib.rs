//! The part of a language server for a lazy functional configuration
//! language that lies between the editor and the analysis: the data model of
//! files, paths, changes and diagnostics, the file store with its tables of
//! lines, the scopes in which names are resolved, and the decisions of the
//! server about the messages of the editor.
//!
//! The functions of this crate are verified against their contracts. The
//! exceptions are the small wrappers around calls into other crates and
//! into std: their contracts are believed, not proved, and the
//! documentation of each says what it claims of the function that it calls.
//! The transport, the walk over the workspace and the query database are
//! left to the program around this crate.

pub mod base;
pub mod change;
pub mod diagnostic;
pub mod file_set;
pub mod handler;
pub mod hir;
pub mod line_map;
pub mod nameres;
pub mod path;
pub mod position;
pub mod protocol;
pub mod state;
pub mod text;
pub mod vfs;
