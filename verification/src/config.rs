//! The parts of the project configuration that the library's logic reads.
use vstd::prelude::*;
use crate::toml_value::TomlValue;

verus! {

/// Value kind of a config-declared metadata field.
#[derive(Debug, Clone, Copy, PartialEq, Eq, Structural)]
pub enum MetadataFieldKind {
    String,
    Boolean,
    ArrayString,
}

/// A config-declared metadata field (`[[metadata.field]]`): its dotted path
/// (e.g. `user.priority`), its kind and its default value.
#[derive(Debug)]
pub struct MetadataFieldConfig {
    pub path: String,
    pub kind: MetadataFieldKind,
    pub default: TomlValue,
}

} // verus!
