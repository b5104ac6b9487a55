//! Note hook input and output types.
use vstd::prelude::*;
use crate::toml_value::TomlValue;

verus! {

/// Byte and line/column span of a node in the note; offsets are byte-based
/// in the raw note content, lines and columns 0-based.
#[derive(Debug, Clone, Copy, PartialEq, Eq, Structural)]
pub struct HookSpan {
    /// Byte offset of the first byte (inclusive).
    pub start_byte: usize,
    /// Byte offset just past the last byte (exclusive).
    pub end_byte: usize,
    /// Line of the first character.
    pub start_line: usize,
    /// Byte column of the first character.
    pub start_col: usize,
    /// Line of the last character.
    pub end_line: usize,
    /// Byte column just past the last character.
    pub end_col: usize,
}

/// The title heading of the note (`= Title <ID>`) with its location.
#[derive(Debug)]
pub struct HookTitle {
    /// Heading text without the `= ` prefix or `<ID>` label.
    pub text: String,
    /// Span of the full heading line.
    pub span: HookSpan,
}

/// A checklist item (`- [ ] text` or `- [ ] @ID`).
#[derive(Debug)]
pub struct HookCheckbox {
    /// `local:{line_idx}` for a local item; the first target ID for a ref
    /// item.
    pub id: String,
    /// `local` or `ref`.
    pub kind: String,
    /// Whether the checkbox is checked in the source.
    pub checked: bool,
    /// `@ID` targets; empty for local items.
    pub targets: Vec<String>,
    /// Body text after `- [x] `.
    pub text: String,
    /// Full-line span.
    pub span: HookSpan,
    /// Line index of the item.
    pub line_idx: usize,
    /// Leading spaces before the `- ` marker.
    pub indent: usize,
}

/// A heading (`=` through `======`).
#[derive(Debug)]
pub struct HookHeading {
    /// 1 for `=`, 2 for `==`, and so on.
    pub level: u32,
    /// Heading text without the leading markers.
    pub text: String,
    /// Span of the full heading line.
    pub span: HookSpan,
}

/// A config-declared metadata field as hooks see it.
#[derive(Debug)]
pub struct HookMetadataField {
    /// Dotted path, e.g. `user.priority`.
    pub path: String,
    /// `string`, `boolean` or `array-string`.
    pub kind: String,
    /// Default value from the config.
    pub default: TomlValue,
}

/// The note handed to a hook's `run(note)`.
#[derive(Debug)]
pub struct HookNoteInput {
    /// 10-digit note ID.
    pub id: String,
    /// The title heading, when it can be found.
    pub title: Option<HookTitle>,
    /// Full raw content.
    pub content: String,
    /// The TOML metadata table.
    pub metadata: Vec<(String, TomlValue)>,
    /// Defaults of the config-declared fields, in TOML layout.
    pub metadata_defaults: Vec<(String, TomlValue)>,
    /// All checklist items in source order.
    pub checkboxes: Vec<HookCheckbox>,
    /// All headings in source order.
    pub headings: Vec<HookHeading>,
    /// Config-declared metadata fields in declaration order.
    pub metadata_fields: Vec<HookMetadataField>,
}

/// A byte-range replacement returned by a hook: `[start_byte, end_byte)`
/// becomes `text`.
#[derive(Debug)]
pub struct HookTextEdit {
    /// Inclusive start byte offset.
    pub start_byte: usize,
    /// Exclusive end byte offset.
    pub end_byte: usize,
    /// Replacement text (empty for a deletion).
    pub text: String,
}

/// What a hook's `run(note)` returns: metadata keys to patch, and text
/// edits.
#[derive(Debug)]
pub struct HookResult {
    /// Metadata keys merged into the TOML block.
    pub metadata: Vec<(String, TomlValue)>,
    /// Byte-range edits of the content.
    pub edits: Vec<HookTextEdit>,
}

impl Default for HookResult {
    fn default() -> (r: Self)
        ensures
            r.metadata@.len() == 0,
            r.edits@.len() == 0,
    {
        HookResult { metadata: Vec::new(), edits: Vec::new() }
    }
}

} // verus!
