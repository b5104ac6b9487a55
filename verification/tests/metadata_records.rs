use zk_lsp::config::{MetadataFieldConfig, MetadataFieldKind};
use zk_lsp::metadata::index::{
    empty_index_table, index_record_table, metadata_path, parse_index, patch_record_in_index,
    put_record_in_index, read_record_in_index, record_table_or_default, remove_record_from_index,
    IndexError, MetadataSnapshot,
};
use zk_lsp::metadata::records::{
    apply_patch_to_table, canonical_record_table, complete_record_table, default_record_table,
    parse_record_table, RecordError,
};
use zk_lsp::metadata::render::render_index;
use zk_lsp::parser::{ChecklistStatus, Relation};
use zk_lsp::toml_value::TomlValue;

type Table = Vec<(String, TomlValue)>;

fn get<'a>(t: &'a Table, key: &str) -> Option<&'a TomlValue> {
    t.iter().find(|(k, _)| k == key).map(|(_, v)| v)
}

fn get_str<'a>(t: &'a Table, key: &str) -> Option<&'a str> {
    match get(t, key) {
        Some(TomlValue::String(s)) => Some(s.as_str()),
        _ => None,
    }
}

fn get_table<'a>(t: &'a Table, key: &str) -> Option<&'a Table> {
    match get(t, key) {
        Some(TomlValue::Table(x)) => Some(x),
        _ => None,
    }
}

fn s(v: &str) -> TomlValue {
    TomlValue::String(v.to_string())
}

fn entry(k: &str, v: TomlValue) -> (String, TomlValue) {
    (k.to_string(), v)
}

fn index_with(notes: Table) -> Table {
    vec![
        entry("format-version", TomlValue::Integer(1)),
        entry("notes", TomlValue::Table(notes)),
    ]
}

#[test]
fn render_index_quotes_note_record_keys() {
    let mut record = default_record_table(&[]);
    record.push(entry(
        "user",
        TomlValue::Table(vec![entry("project", s("zk"))]),
    ));
    let root = index_with(vec![entry("2607081902", TomlValue::Table(record))]);

    let rendered = render_index(&root);

    assert!(rendered.contains("[notes.\"2607081902\"]"));
    assert!(rendered.contains("[notes.\"2607081902\".user]"));
    assert!(!rendered.contains("[notes.2607081902]"));
}

#[test]
fn complete_record_table_merges_core_and_user_defaults_without_overwriting() {
    let fields = vec![MetadataFieldConfig {
        path: "user.project".into(),
        kind: MetadataFieldKind::String,
        default: s("default-project"),
    }];
    let mut table: Table = vec![
        entry("relation", s("archived")),
        entry(
            "user",
            TomlValue::Table(vec![entry("project", s("manual-project"))]),
        ),
    ];

    complete_record_table(&mut table, &fields);

    assert_eq!(get_str(&table, "relation"), Some("archived"));
    assert_eq!(
        get_table(&table, "user").and_then(|u| get_str(u, "project")),
        Some("manual-project")
    );
    assert!(get(&table, "schema-version").is_some());
    assert!(get(&table, "checklist-status").is_some());
}

#[test]
fn apply_patch_to_table_validates_core_and_user_values() {
    let fields = vec![MetadataFieldConfig {
        path: "user.reviewed".into(),
        kind: MetadataFieldKind::Boolean,
        default: TomlValue::Boolean(false),
    }];
    let mut table = default_record_table(&fields);

    let invalid_status = vec![entry("checklist-status", s("blocked"))];
    assert!(apply_patch_to_table(&mut table, &invalid_status, &fields).is_err());

    let invalid_targets = vec![entry(
        "relation-target",
        TomlValue::Array(vec![TomlValue::Integer(1)]),
    )];
    assert!(apply_patch_to_table(&mut table, &invalid_targets, &fields).is_err());

    let invalid_user = vec![entry("user.reviewed", s("yes"))];
    assert!(apply_patch_to_table(&mut table, &invalid_user, &fields).is_err());

    let valid_user = vec![entry("user.reviewed", TomlValue::Boolean(true))];
    apply_patch_to_table(&mut table, &valid_user, &fields).unwrap();
    assert!(matches!(
        get_table(&table, "user").and_then(|u| get(u, "reviewed")),
        Some(TomlValue::Boolean(true))
    ));
}

#[test]
fn metadata_snapshot_keeps_valid_records_and_per_record_errors() {
    let valid = default_record_table(&[]);
    let mut invalid = default_record_table(&[]);
    for e in invalid.iter_mut() {
        if e.0 == "checklist-status" {
            e.1 = s("blocked");
        }
    }
    let root = index_with(vec![
        entry("2607081902", TomlValue::Table(valid)),
        entry("2607081903", TomlValue::Table(invalid)),
    ]);

    let snapshot = MetadataSnapshot::from_index_table(&root, &[]).unwrap();

    assert!(snapshot.record("2607081902").is_ok());
    assert_eq!(
        snapshot.record("2607081903").unwrap_err(),
        "Invalid metadata for current note"
    );
    assert_eq!(
        snapshot.record("2607089999").unwrap_err(),
        "Missing metadata for current note"
    );
}

#[test]
fn write_paths_do_not_replace_structurally_invalid_metadata_index() {
    let err = parse_index("notes = {}\n", "wiki/metadata.toml").unwrap_err();
    assert_eq!(err, IndexError::MissingFormatVersion);
    assert!(err.message().contains("Missing format-version"));
    let err = parse_index("format-version = 2\n", "m.toml").unwrap_err();
    assert_eq!(err.message(), "Unsupported metadata format-version");
    let err = parse_index("format-version = \n", "m.toml").unwrap_err();
    assert_eq!(err.message(), "parsing m.toml");
}

#[test]
fn read_record_table_or_default_only_defaults_missing_file_or_record() {
    let missing_file = record_table_or_default(None, "2607081902", &[]).unwrap();
    assert_eq!(get_str(&missing_file, "checklist-status"), Some("none"));

    let root = parse_index("format-version = 1\n\n[notes]\n", "m.toml").unwrap();
    let missing_record = record_table_or_default(Some(&root), "2607081902", &[]).unwrap();
    assert_eq!(get_str(&missing_record, "checklist-status"), Some("none"));

    let no_notes = vec![entry("format-version", TomlValue::Integer(1))];
    assert_eq!(
        record_table_or_default(Some(&no_notes), "2607081902", &[]).unwrap_err(),
        IndexError::MissingNotes
    );
}

#[test]
fn metadata_path_joins_the_index_file_name() {
    assert_eq!(metadata_path("/wiki"), "/wiki/metadata.toml");
    assert_eq!(metadata_path("/wiki/"), "/wiki/metadata.toml");
    assert_eq!(metadata_path(""), "metadata.toml");
}

#[test]
fn put_record_refuses_bad_ids_and_non_table_notes() {
    let table = default_record_table(&[]);
    assert_eq!(
        put_record_in_index(empty_index_table(), "26070819", &table).unwrap_err(),
        IndexError::InvalidNoteId
    );
    let bad = vec![entry("notes", TomlValue::Integer(3))];
    assert_eq!(
        put_record_in_index(bad, "2607081902", &table).unwrap_err(),
        IndexError::MissingNotes
    );
    let root = put_record_in_index(vec![], "2607081902", &table).unwrap();
    assert!(matches!(get(&root, "format-version"), Some(TomlValue::Integer(1))));
    let rec = index_record_table(&root, "2607081902").unwrap();
    assert_eq!(rec.len(), 8);
    assert_eq!(rec[0].0, "schema-version");
    assert_eq!(rec[7].0, "relation-target");
}

#[test]
fn canonical_record_table_orders_core_then_others_then_user() {
    let table: Table = vec![
        entry("user", TomlValue::Table(vec![])),
        entry("zeta", TomlValue::Integer(1)),
        entry("relation", s("active")),
        entry("aliases", TomlValue::Array(vec![])),
    ];
    let c = canonical_record_table(&table);
    let keys: Vec<&str> = c.iter().map(|(k, _)| k.as_str()).collect();
    assert_eq!(keys, vec!["aliases", "relation", "zeta", "user"]);
}

#[test]
fn patch_record_in_index_completes_patches_and_stores() {
    let patch = vec![entry("relation", s("archived"))];
    let root = patch_record_in_index(None, "2607081902", &patch, &[]).unwrap();
    let rec = read_record_in_index(&root, "2607081902", &[]).unwrap();
    assert_eq!(rec.relation, Relation::Archived);
    assert_eq!(rec.checklist_status, ChecklistStatus::NotApplicable);
    assert!(rec.generated);

    let bad = vec![entry("checklist-status", s("blocked"))];
    assert_eq!(
        patch_record_in_index(Some(root.clone()), "2607081902", &bad, &[]).unwrap_err(),
        IndexError::Record(RecordError::InvalidValue {
            key: "checklist-status".into()
        })
    );
    assert_eq!(
        patch_record_in_index(None, "bad", &patch, &[]).unwrap_err(),
        IndexError::InvalidNoteId
    );
}

#[test]
fn remove_record_from_index_drops_only_that_record() {
    let table = default_record_table(&[]);
    let root = put_record_in_index(empty_index_table(), "2607081902", &table).unwrap();
    let mut root = put_record_in_index(root, "2607081903", &table).unwrap();
    remove_record_from_index(&mut root, "2607081902");
    assert_eq!(
        index_record_table(&root, "2607081902").unwrap_err(),
        IndexError::MissingRecord
    );
    assert!(index_record_table(&root, "2607081903").is_ok());
}

#[test]
fn render_index_sorts_records_and_writes_values() {
    let mut rec = default_record_table(&[]);
    rec.push(entry("extra", TomlValue::Integer(-42)));
    rec.push(entry(
        "user",
        TomlValue::Table(vec![entry("b", TomlValue::Boolean(false)), entry("a b", s("x\"y"))]),
    ));
    let root = index_with(vec![
        entry("2607081903", TomlValue::Table(default_record_table(&[]))),
        entry("count", TomlValue::Integer(2)),
        entry("2607081902", TomlValue::Table(rec)),
    ]);
    let text = render_index(&root);
    let expected = "format-version = 1\n\n[notes]\ncount = 2\n\n\
[notes.\"2607081902\"]\nschema-version = 1\naliases = []\nabstract = \"\"\nkeywords = []\n\
generated = true\nchecklist-status = \"none\"\nrelation = \"active\"\nrelation-target = []\n\
extra = -42\n\n[notes.\"2607081902\".user]\n\"a b\" = \"x\\\"y\"\nb = false\n\n\
[notes.\"2607081903\"]\nschema-version = 1\naliases = []\nabstract = \"\"\nkeywords = []\n\
generated = true\nchecklist-status = \"none\"\nrelation = \"active\"\nrelation-target = []\n\n";
    assert_eq!(text, expected);
}

#[test]
fn parse_record_table_reads_defaults_for_missing_fields() {
    let rec = parse_record_table(&vec![entry("relation", s("legacy"))]).unwrap();
    assert_eq!(rec.relation, Relation::Legacy);
    assert_eq!(rec.schema_version, 1);
    assert!(rec.aliases.is_empty());
}

#[test]
fn put_keeps_other_records_and_reads_back_canonical() {
    let table: Table = vec![
        entry("user", TomlValue::Table(vec![])),
        entry("relation", s("legacy")),
    ];
    let other = default_record_table(&[]);
    let root = put_record_in_index(empty_index_table(), "2607081903", &other).unwrap();
    let root = put_record_in_index(root, "2607081902", &table).unwrap();
    let back = index_record_table(&root, "2607081902").unwrap();
    let keys: Vec<&str> = back.iter().map(|(k, _)| k.as_str()).collect();
    assert_eq!(keys, vec!["relation", "user"]);
    assert_eq!(index_record_table(&root, "2607081903").unwrap().len(), 8);
}

#[test]
fn snapshot_answers_as_reading_the_record() {
    let valid = default_record_table(&[]);
    let root = index_with(vec![
        entry("2607081902", TomlValue::Table(valid)),
        entry("2607081903", TomlValue::Integer(7)),
    ]);
    let snapshot = MetadataSnapshot::from_index_table(&root, &[]).unwrap();
    let direct = read_record_in_index(&root, "2607081902", &[]).unwrap();
    let via = snapshot.record("2607081902").unwrap();
    assert_eq!(via.relation, direct.relation);
    assert_eq!(via.checklist_status, direct.checklist_status);
    assert_eq!(
        snapshot.record("2607081903").unwrap_err(),
        "Invalid metadata for current note"
    );
    assert_eq!(
        read_record_in_index(&root, "2607081903", &[]).unwrap_err(),
        IndexError::MissingRecord
    );
    let gone = MetadataSnapshot::unavailable("no index");
    assert_eq!(gone.record("2607081902").unwrap_err(), "no index");
}

#[test]
fn patch_sets_each_key_and_keeps_the_others() {
    let fields = vec![
        MetadataFieldConfig {
            path: "user.reviewed".into(),
            kind: MetadataFieldKind::Boolean,
            default: TomlValue::Boolean(false),
        },
    ];
    let mut table: Table = vec![
        entry("relation", s("active")),
        entry("keywords", TomlValue::Array(vec![])),
        entry("user", TomlValue::Table(vec![entry("other", s("kept"))])),
    ];
    let patch = vec![
        entry("relation", s("archived")),
        entry("user.reviewed", TomlValue::Boolean(true)),
    ];
    apply_patch_to_table(&mut table, &patch, &fields).unwrap();
    assert_eq!(get_str(&table, "relation"), Some("archived"));
    assert!(matches!(get(&table, "keywords"), Some(TomlValue::Array(a)) if a.is_empty()));
    let user = get_table(&table, "user").unwrap();
    assert_eq!(get_str(user, "other"), Some("kept"));
    assert!(matches!(get(user, "reviewed"), Some(TomlValue::Boolean(true))));
    assert_eq!(table.len(), 3);
}

#[test]
fn patch_with_a_repeated_key_keeps_the_last_value() {
    let fields: Vec<MetadataFieldConfig> = Vec::new();
    let mut table = default_record_table(&fields);
    let patch = vec![entry("abstract", s("first")), entry("abstract", s("second"))];
    apply_patch_to_table(&mut table, &patch, &fields).unwrap();
    assert_eq!(get_str(&table, "abstract"), Some("second"));
}
