use zk_lsp::metadata_schema::{metadata_output_format, render_config_command, ConfigCommand};
use zk_lsp::config::{MetadataFieldConfig, MetadataFieldKind};
use zk_lsp::json_value::JsonValue;
use zk_lsp::metadata_schema::{
    all_field_specs, core_field_specs, default_metadata_table, json_schema_value, render_defaults, render_fields,
    render_json_schema, toml_value_to_json, ConfigSource, MetadataSchemaFormat,
};
use zk_lsp::toml_value::TomlValue;

fn fields() -> Vec<MetadataFieldConfig> {
    vec![
        MetadataFieldConfig {
            path: "user.priority".into(),
            kind: MetadataFieldKind::String,
            default: TomlValue::String("normal".into()),
        },
        MetadataFieldConfig {
            path: "user.reviewed".into(),
            kind: MetadataFieldKind::Boolean,
            default: TomlValue::Boolean(false),
        },
    ]
}

fn member<'a>(v: &'a JsonValue, key: &str) -> Option<&'a JsonValue> {
    match v {
        JsonValue::Object(members) => members.iter().rev().find(|(k, _)| k == key).map(|(_, x)| x),
        _ => None,
    }
}

fn is_str(v: Option<&JsonValue>, s: &str) -> bool {
    matches!(v, Some(JsonValue::Str(x)) if x == s)
}

#[test]
fn fields_include_core_and_custom_metadata() {
    let specs = all_field_specs(&fields());
    let paths: Vec<&str> = specs.iter().map(|field| field.path.as_str()).collect();
    assert!(paths.contains(&"schema-version"));
    assert!(paths.contains(&"relation-target"));
    assert!(paths.contains(&"user.priority"));
    assert!(paths.contains(&"user.reviewed"));
}

#[test]
fn defaults_include_custom_metadata_tree() {
    let defaults = toml_value_to_json(&TomlValue::Table(default_metadata_table(&fields())));
    let user = member(&defaults, "user").expect("user table");
    match user {
        JsonValue::Object(members) => {
            assert_eq!(members.len(), 2);
            assert!(is_str(member(user, "priority"), "normal"));
            assert!(matches!(member(user, "reviewed"), Some(JsonValue::Bool(false))));
        }
        other => panic!("expected an object, got {other:?}"),
    }
}

#[test]
fn json_schema_nests_custom_fields_under_user() {
    let schema = json_schema_value(&fields(), &[], false);
    let priority_type = member(&schema, "properties")
        .and_then(|p| member(p, "user"))
        .and_then(|u| member(u, "properties"))
        .and_then(|p| member(p, "priority"))
        .and_then(|p| member(p, "type"));
    assert!(is_str(priority_type, "string"));
    let relation_enum = member(&schema, "properties").and_then(|p| member(p, "relation")).and_then(|p| member(p, "enum"));
    match relation_enum {
        Some(JsonValue::Array(items)) => {
            assert_eq!(items.len(), 3);
            assert!(is_str(items.get(0), "active"));
            assert!(is_str(items.get(1), "archived"));
            assert!(is_str(items.get(2), "legacy"));
        }
        other => panic!("expected the relation enum, got {other:?}"),
    }
}

#[test]
fn core_fields_are_the_eight_required_ones() {
    let specs = core_field_specs();
    assert_eq!(specs.len(), 8);
    assert!(specs.iter().all(|s| s.required && s.core));
    assert_eq!(specs[5].path, "checklist-status");
    assert_eq!(specs[5].enum_values.as_ref().unwrap(), &vec!["none".to_string(), "todo".into(), "wip".into(), "done".into()]);
}

#[test]
fn schema_required_lists_core_paths_only() {
    let schema = json_schema_value(&fields(), &[], false);
    match member(&schema, "required") {
        Some(JsonValue::Array(items)) => assert_eq!(items.len(), 8),
        other => panic!("expected the required list, got {other:?}"),
    }
}

#[test]
fn toml_defaults_render_core_and_user_tables() {
    let out = render_defaults(&fields(), &[], MetadataSchemaFormat::Toml, false).unwrap();
    assert!(out.ends_with('\n'));
    assert!(out.contains("checklist-status = \"none\""));
    assert!(out.contains("[user]"));
    assert!(out.contains("priority = \"normal\""));
}

#[test]
fn rendered_documents_carry_their_kind() {
    let sources = vec![ConfigSource { scope: "global".into(), path: "/etc/zk.toml".into(), loaded: false }];
    let json = render_fields(&fields(), &sources, MetadataSchemaFormat::Json, true).unwrap();
    assert!(json.contains("\"kind\": \"zk-lsp.config.metadata.fields\""));
    assert!(json.contains("\"scope\": \"global\""));
    assert!(json.ends_with('\n'));
    let toml = render_fields(&fields(), &[], MetadataSchemaFormat::Toml, false).unwrap();
    assert!(toml.contains("kind = \"zk-lsp.config.metadata.fields\""));
    assert!(!toml.contains("sources"));
    let schema = render_json_schema(&fields(), &[], false).unwrap();
    assert!(schema.contains("\"$schema\": \"https://json-schema.org/draft/2020-12/schema\""));
    let defaults = render_defaults(&[], &[], MetadataSchemaFormat::Json, false).unwrap();
    assert!(defaults.contains("\"kind\": \"zk-lsp.config.metadata.defaults\""));
}

#[test]
fn config_commands_pick_format_and_document() {
    assert_eq!(metadata_output_format(true), MetadataSchemaFormat::Toml);
    assert_eq!(metadata_output_format(false), MetadataSchemaFormat::Json);
    let toml = render_config_command(&fields(), &[], ConfigCommand::Defaults { toml: true, sources: false }).unwrap();
    assert!(toml.contains("schema-version = 1"));
    let schema = render_config_command(&fields(), &[], ConfigCommand::JsonSchema { sources: false }).unwrap();
    assert!(schema.contains("\"properties\""));
}
