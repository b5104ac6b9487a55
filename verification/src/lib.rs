//! Core logic of a Zettelkasten note wiki: note and checklist parsing,
//! checkbox normalisation, task-dependency cycles, the metadata index
//! scanner and the Reconcile DSL (parser, type checker and evaluator).
pub mod text;
pub mod parser;
pub mod reconcile;
pub mod metadata;
pub mod config;
pub mod note_ops;
pub mod dependency_graph;
pub mod cycle;
pub mod reach;
pub mod topo;
pub mod laws;
pub mod rules;
pub mod toml_value;
pub mod json_value;
pub mod metadata_schema;
pub mod handlers;
pub mod hooks;
pub mod server;
pub mod note_info;
pub use vstd::hash_map::StringHashMap;
