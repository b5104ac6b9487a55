//! Editor features over a note or the metadata index: code actions,
//! byte-range edits and reference lookup.
pub mod code_actions;
pub mod formatting;
pub mod references;
