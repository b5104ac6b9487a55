//! The data handed to and returned by note hooks, and the application of
//! the text edits a hook returns.
pub mod types;
pub mod apply;
