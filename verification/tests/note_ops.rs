use zk_lsp::note_ops::{parse_json_creation_input, JsonInputError};
use zk_lsp::note_ops::validate_note_id;

#[test]
fn test_validate_note_id_valid() {
    assert!(validate_note_id("2602110128").is_ok());
    assert!(validate_note_id("0000000000").is_ok());
    assert!(validate_note_id("9999999999").is_ok());
}

#[test]
fn test_validate_note_id_too_short() {
    assert!(validate_note_id("260211012").is_err());
    assert!(validate_note_id("").is_err());
}

#[test]
fn test_validate_note_id_too_long() {
    assert!(validate_note_id("26021101280").is_err());
}

#[test]
fn test_validate_note_id_non_numeric() {
    assert!(validate_note_id("260211012x").is_err());
    assert!(validate_note_id("YYMMDDHHMM").is_err());
    assert!(validate_note_id("2602110128 ").is_err());
}

#[test]
fn invalid_note_id_message_names_the_id() {
    let err = validate_note_id("12ab").unwrap_err();
    assert_eq!(err.id, "12ab");
    assert_eq!(
        err.message(),
        "invalid note ID \"12ab\": must be exactly 10 decimal digits (YYMMDDHHMM)"
    );
}

#[test]
fn non_ascii_digits_are_rejected() {
    assert!(validate_note_id("２６０２１１０１２８").is_err());
}

use zk_lsp::config::{MetadataFieldConfig, MetadataFieldKind};
use zk_lsp::note_ops::{
    build_metadata_block, parse_meta_overrides, parse_toml_value_str, toml_default_inline, MetaError,
    MetaOverrides,
};
use zk_lsp::toml_value::{parse_toml_document, TomlValue};

fn string_of(v: Option<&TomlValue>) -> Option<&str> {
    match v {
        Some(TomlValue::String(s)) => Some(s.as_str()),
        _ => None,
    }
}

/// The TOML between the ```toml fence and the closing fence.
fn extract_toml_from_block(block: &str) -> Option<String> {
    let lines: Vec<&str> = block.lines().collect();
    let fence_start = lines.iter().position(|l| l.trim() == "```toml")?;
    let mut toml_lines = Vec::new();
    for line in &lines[fence_start + 1..] {
        if line.trim().starts_with("```") {
            break;
        }
        toml_lines.push(*line);
    }
    Some(toml_lines.join("\n"))
}

fn field(path: &str, kind: MetadataFieldKind, default: TomlValue) -> MetadataFieldConfig {
    MetadataFieldConfig { path: path.to_string(), kind, default }
}

const CORE_KEYS: [&str; 8] = [
    "schema-version",
    "aliases",
    "abstract",
    "keywords",
    "generated",
    "checklist-status",
    "relation",
    "relation-target",
];

#[test]
fn test_build_metadata_block_no_custom_fields() {
    let block = build_metadata_block(&[], &MetaOverrides::new());
    assert!(block.contains("schema-version = 1"));
    assert!(block.contains("checklist-status = \"none\""));
    assert!(block.contains("relation = \"active\""));
    assert!(!block.contains("[user]"), "no [user] section when no custom fields");
    let inner = extract_toml_from_block(&block).expect("should extract TOML");
    let parsed = parse_toml_document(&inner).expect("should parse");
    assert!(parsed.iter().all(|(k, _)| CORE_KEYS.contains(&k.as_str())), "no extra fields");
}

#[test]
fn test_build_metadata_block_with_user_fields() {
    let fields = vec![
        field("user.course", MetadataFieldKind::String, TomlValue::String(String::new())),
        field("user.priority", MetadataFieldKind::String, TomlValue::String("normal".into())),
        field("user.tags", MetadataFieldKind::ArrayString, TomlValue::Array(vec![])),
    ];
    let block = build_metadata_block(&fields, &MetaOverrides::new());
    assert!(block.contains("[user]"));
    assert!(block.contains("course = \"\""));
    assert!(block.contains("priority = \"normal\""));
    assert!(block.contains("tags = []"));
    let inner = extract_toml_from_block(&block).expect("should extract TOML");
    let parsed = parse_toml_document(&inner).expect("should parse");
    assert!(parsed.iter().any(|(k, _)| k == "user"), "user table should be in extra");
}

#[test]
fn test_parse_meta_overrides_valid() {
    let meta = vec!["checklist-status=todo".to_string(), "relation=archived".to_string()];
    let overrides = parse_meta_overrides(&meta, &[]).unwrap();
    assert_eq!(string_of(overrides.get("checklist-status")), Some("todo"), "bare word should be treated as string");
    assert_eq!(string_of(overrides.get("relation")), Some("archived"));
}

#[test]
fn test_parse_meta_overrides_toml_array() {
    let meta = vec!["keywords=[\"a\", \"b\"]".to_string()];
    let overrides = parse_meta_overrides(&meta, &[]).unwrap();
    let arr = match overrides.get("keywords") {
        Some(TomlValue::Array(items)) => items,
        other => panic!("expected an array, got {other:?}"),
    };
    assert_eq!(arr.len(), 2);
    assert_eq!(string_of(arr.get(0)), Some("a"));
    assert_eq!(string_of(arr.get(1)), Some("b"));
}

#[test]
fn test_parse_meta_overrides_missing_eq() {
    assert!(parse_meta_overrides(&["noequalssign".to_string()], &[]).is_err());
}

#[test]
fn test_parse_meta_overrides_unknown_core_key_rejected() {
    let err = parse_meta_overrides(&["bogus=foo".to_string()], &[]).unwrap_err().message();
    assert!(err.contains("bogus"), "error should mention the bad key");
}

#[test]
fn test_parse_meta_overrides_undeclared_user_key_rejected() {
    let err = parse_meta_overrides(&["user.priority=high".to_string()], &[]).unwrap_err().message();
    assert!(err.contains("user.priority"));
}

#[test]
fn test_parse_meta_overrides_declared_user_key_accepted() {
    let fields = vec![field("user.priority", MetadataFieldKind::String, TomlValue::String("normal".into()))];
    let overrides = parse_meta_overrides(&["user.priority=high".to_string()], &fields).unwrap();
    assert_eq!(string_of(overrides.get("user.priority")), Some("high"));
}

#[test]
fn test_build_metadata_block_with_overrides() {
    let mut overrides = MetaOverrides::new();
    overrides.insert("checklist-status".to_string(), TomlValue::String("todo".to_string()));
    overrides.insert("relation".to_string(), TomlValue::String("archived".to_string()));
    let block = build_metadata_block(&[], &overrides);
    assert!(block.contains("checklist-status = \"todo\""), "override should replace default");
    assert!(block.contains("relation = \"archived\""));
    assert!(block.contains("abstract = \"\""));
}

#[test]
fn test_build_metadata_block_user_field_override() {
    let fields = vec![field("user.priority", MetadataFieldKind::String, TomlValue::String("normal".into()))];
    let mut overrides = MetaOverrides::new();
    overrides.insert("user.priority".to_string(), TomlValue::String("high".to_string()));
    let block = build_metadata_block(&fields, &overrides);
    assert!(block.contains("priority = \"high\""), "config default should be overridden");
}

#[test]
fn metadata_block_exact_text() {
    let fields = vec![
        field("user.flag", MetadataFieldKind::Boolean, TomlValue::Boolean(false)),
        field("other.x", MetadataFieldKind::String, TomlValue::String("skip".into())),
    ];
    let mut overrides = MetaOverrides::new();
    overrides.insert("abstract".to_string(), TomlValue::String("say \"hi\"".to_string()));
    overrides.insert("aliases".to_string(), TomlValue::Array(vec![TomlValue::String("a".into()), TomlValue::Integer(3)]));
    overrides.insert("generated".to_string(), TomlValue::Boolean(false));
    let block = build_metadata_block(&fields, &overrides);
    assert_eq!(
        block,
        "#let zk-metadata = toml(bytes(\n  ```toml\n  schema-version = 1\n  aliases = [\"a\", 3]\n  abstract = \"say \\\"hi\\\"\"\n  keywords = []\n  generated = false\n  checklist-status = \"none\"\n  relation = \"active\"\n  relation-target = []\n\n  [user]\n  flag = false\n  ```.text,\n))"
    );
}

#[test]
fn later_override_replaces_earlier() {
    let meta = vec!["relation=archived".to_string(), "relation=legacy".to_string()];
    let overrides = parse_meta_overrides(&meta, &[]).unwrap();
    assert_eq!(string_of(overrides.get("relation")), Some("legacy"));
    assert!(overrides.get("keywords").is_none());
}

#[test]
fn meta_error_variants_and_messages() {
    match parse_meta_overrides(&["noeq".to_string()], &[]).unwrap_err() {
        MetaError::MissingEquals { item } => assert_eq!(item, "noeq"),
        other => panic!("unexpected {other:?}"),
    }
    let e = parse_meta_overrides(&["bogus=1".to_string()], &[]).unwrap_err();
    assert_eq!(
        e.message(),
        "--meta key \"bogus\" is not a valid metadata field; valid core fields: checklist-status, relation, generated, aliases, keywords, abstract, relation-target"
    );
    let e = parse_meta_overrides(&["user.x=1".to_string()], &[]).unwrap_err();
    assert_eq!(
        e.message(),
        "--meta key \"user.x\" is not declared in config; add [[metadata.field]] path = \"user.x\" to zk-lsp.toml first"
    );
}

#[test]
fn toml_literals_and_inline_values() {
    assert!(matches!(parse_toml_value_str("true"), TomlValue::Boolean(true)));
    assert!(matches!(parse_toml_value_str("42"), TomlValue::Integer(42)));
    assert!(matches!(parse_toml_value_str("todo"), TomlValue::String(ref s) if s == "todo"));
    assert!(matches!(parse_toml_value_str("\"q\""), TomlValue::String(ref s) if s == "q"));
    assert_eq!(toml_default_inline(&TomlValue::String("a\\b".into())), "\"a\\\\b\"");
    assert_eq!(toml_default_inline(&TomlValue::Boolean(true)), "true");
    assert_eq!(toml_default_inline(&TomlValue::Array(vec![])), "[]");
    assert_eq!(toml_default_inline(&TomlValue::Integer(5)), "\"\"");
}

#[test]
fn new_note_content_contains_id_heading_and_body() {
    let content = zk_lsp::note_ops::build_note_content(
        "2602110129",
        &[],
        None,
        &MetaOverrides::new(),
        Some("Title"),
        Some("Body"),
    );
    assert!(content.contains("2602110129"));
    assert!(content.starts_with("#import \"../include.typ\": *\n"));
    assert!(content.ends_with("\n= Title <2602110129>\n\nBody"));
    let untitled = zk_lsp::note_ops::build_note_content("2602110129", &[], None, &MetaOverrides::new(), None, None);
    assert!(untitled.ends_with("\n=  <2602110129>\n"));
}

#[test]
fn new_note_template_placeholders_are_replaced_in_order() {
    let content = zk_lsp::note_ops::build_note_content(
        "2602110129",
        &[],
        Some("{{id}}|{{title}}|{{content}}|{{id}}"),
        &MetaOverrides::new(),
        Some("T {{content}}"),
        Some("B"),
    );
    assert_eq!(content, "2602110129|T B|B|2602110129");
}

#[test]
fn json_creation_input_reads_metadata_title_and_content() {
    let fields = vec![field(
        "user.priority",
        MetadataFieldKind::String,
        TomlValue::String("normal".into()),
    )];
    let (ov, title, body) = zk_lsp::note_ops::parse_json_creation_input(
        r#"{"title": "T", "content": "C", "metadata": {"relation": "archived", "user.priority": "high", "aliases": ["a", null]}}"#,
        &fields,
    )
    .unwrap();
    assert_eq!(title.as_deref(), Some("T"));
    assert_eq!(body.as_deref(), Some("C"));
    assert_eq!(string_of(ov.get("relation")), Some("archived"));
    assert_eq!(string_of(ov.get("user.priority")), Some("high"));
    match ov.get("aliases") {
        Some(TomlValue::Array(items)) => {
            assert_eq!(items.len(), 2);
            assert!(matches!(&items[1], TomlValue::String(s) if s.is_empty()));
        }
        _ => panic!("aliases missing"),
    }
}

#[test]
fn json_creation_input_errors() {
    assert_eq!(
        parse_json_creation_input("[1]", &[]).unwrap_err(),
        JsonInputError::NotAnObject
    );
    assert_eq!(
        parse_json_creation_input(r#"{"metadata": 3}"#, &[]).unwrap_err(),
        JsonInputError::MetadataNotObject
    );
    let e = parse_json_creation_input(r#"{"metadata": {"user.x": 1}}"#, &[]).unwrap_err();
    assert_eq!(
        e.message(),
        "--json metadata key \"user.x\" is not declared in config; add [[metadata.field]] path = \"user.x\" to zk-lsp.toml first"
    );
    let e = parse_json_creation_input(r#"{"metadata": {"schema-version": 1}}"#, &[]).unwrap_err();
    assert!(e.message().starts_with("--json metadata key \"schema-version\" is not a valid metadata field"));
    let (ov, t, b) = parse_json_creation_input("{}", &[]).unwrap();
    assert!(ov.entries.is_empty() && t.is_none() && b.is_none());
}
