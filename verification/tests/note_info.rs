use zk_lsp::config::{MetadataFieldConfig, MetadataFieldKind};
use zk_lsp::json_value::JsonValue;
use zk_lsp::metadata::index::MetadataSnapshot;
use zk_lsp::metadata::records::MetadataRecord;
use zk_lsp::note_info::{
    add_file_stat, build_note_info_value, build_note_info_value_from_content, cached_note_record,
    note_error_value, note_file_id, note_record, sort_note_paths, CachedNoteRecord, FileFingerprint,
    FileStat, NoteRead,
};
use zk_lsp::parser::{ChecklistStatus, NoteHeader, Relation};
use zk_lsp::toml_value::TomlValue;

fn test_header() -> NoteHeader {
    NoteHeader {
        id: "2604070001".into(),
        title: "Test Note".into(),
        title_line_idx: 0,
    }
}

fn member<'a>(v: &'a JsonValue, key: &str) -> Option<&'a JsonValue> {
    match v {
        JsonValue::Object(ms) => ms.iter().find(|(k, _)| k == key).map(|(_, x)| x),
        _ => None,
    }
}

fn str_of(v: Option<&JsonValue>) -> Option<&str> {
    match v {
        Some(JsonValue::Str(s)) => Some(s.as_str()),
        _ => None,
    }
}

fn user_table(entries: Vec<(&str, TomlValue)>) -> Vec<(String, TomlValue)> {
    vec![(
        "user".to_string(),
        TomlValue::Table(entries.into_iter().map(|(k, v)| (k.to_string(), v)).collect()),
    )]
}

fn field(path: &str, kind: MetadataFieldKind, default: TomlValue) -> MetadataFieldConfig {
    MetadataFieldConfig {
        path: path.into(),
        kind,
        default,
    }
}

#[test]
fn note_info_includes_missing_custom_metadata_defaults() {
    let parsed = MetadataRecord {
        extra: user_table(vec![("course", TomlValue::String("QFT".into()))]),
        ..MetadataRecord::default()
    };
    let metadata_fields = vec![
        field("user.course", MetadataFieldKind::String, TomlValue::String(String::new())),
        field("user.priority", MetadataFieldKind::String, TomlValue::String("normal".into())),
        field("user.tags", MetadataFieldKind::ArrayString, TomlValue::Array(Vec::new())),
        field("user.reviewed", MetadataFieldKind::Boolean, TomlValue::Boolean(false)),
    ];

    let value = build_note_info_value(
        "2604070001",
        "/tmp/2604070001.typ",
        &test_header(),
        &parsed,
        &metadata_fields,
    );

    let user = member(member(&value, "metadata").unwrap(), "user").unwrap();
    assert_eq!(str_of(member(user, "course")), Some("QFT"));
    assert_eq!(str_of(member(user, "priority")), Some("normal"));
    assert!(matches!(member(user, "tags"), Some(JsonValue::Array(a)) if a.is_empty()));
    assert!(matches!(member(user, "reviewed"), Some(JsonValue::Bool(false))));
    match user {
        JsonValue::Object(ms) => assert_eq!(ms.len(), 4),
        _ => panic!("user is no object"),
    }
}

#[test]
fn note_info_preserves_explicit_custom_metadata_values() {
    let parsed = MetadataRecord {
        checklist_status: ChecklistStatus::Todo,
        relation: Relation::Archived,
        extra: user_table(vec![
            ("priority", TomlValue::String("urgent".into())),
            ("reviewed", TomlValue::Boolean(true)),
        ]),
        ..MetadataRecord::default()
    };
    let metadata_fields = vec![
        field("user.priority", MetadataFieldKind::String, TomlValue::String("normal".into())),
        field("user.reviewed", MetadataFieldKind::Boolean, TomlValue::Boolean(false)),
    ];

    let value = build_note_info_value(
        "2604070001",
        "/tmp/2604070001.typ",
        &test_header(),
        &parsed,
        &metadata_fields,
    );

    let metadata = member(&value, "metadata").unwrap();
    let user = member(metadata, "user").unwrap();
    assert_eq!(str_of(member(user, "priority")), Some("urgent"));
    assert!(matches!(member(user, "reviewed"), Some(JsonValue::Bool(true))));
    match user {
        JsonValue::Object(ms) => assert_eq!(ms.len(), 2),
        _ => panic!("user is no object"),
    }
    assert_eq!(str_of(member(metadata, "checklist-status")), Some("todo"));
    assert_eq!(str_of(member(metadata, "relation")), Some("archived"));
}

#[test]
fn note_file_ids_are_ten_digit_typ_stems() {
    assert_eq!(note_file_id("1234567890.typ").as_deref(), Some("1234567890"));
    assert_eq!(note_file_id("123456789.typ"), None);
    assert_eq!(note_file_id("1234567890.md"), None);
    assert_eq!(note_file_id("12345a7890.typ"), None);
}

#[test]
fn note_paths_sort_by_id() {
    let sorted = sort_note_paths(vec![
        ("2222222222".into(), "b".into()),
        ("1111111111".into(), "a".into()),
    ]);
    assert_eq!(sorted[0].0, "1111111111");
    assert_eq!(sorted[1].0, "2222222222");
}

#[test]
fn error_records_carry_the_message_and_stat() {
    let mut v = note_error_value("1", "/p", "boom", None);
    assert_eq!(str_of(member(&v, "error")), Some("boom"));
    assert_eq!(str_of(member(&v, "title")), Some(""));
    add_file_stat(&mut v, Some(FileStat { size: 12, mtime_secs: Some(34) }));
    assert!(matches!(member(&v, "size"), Some(JsonValue::UInt(12))));
    assert!(matches!(member(&v, "mtime"), Some(JsonValue::UInt(34))));
}

fn index_with(id: &str) -> Vec<(String, TomlValue)> {
    let rec = zk_lsp::metadata::records::default_record_table(&[]);
    vec![
        ("format-version".to_string(), TomlValue::Integer(1)),
        (
            "notes".to_string(),
            TomlValue::Table(vec![(id.to_string(), TomlValue::Table(rec))]),
        ),
    ]
}

const NOTE: &str = "#import \"../include.typ\": *\n#let zk-metadata = zk_metadata(\"1111111111\")\n#show: zettel.with(metadata: zk-metadata)\n\n= First <1111111111>\n";

#[test]
fn note_records_build_info_or_error_records() {
    let snapshot = MetadataSnapshot::from_index_table(&index_with("1111111111"), &[]).unwrap();
    let fp = Some(FileFingerprint { size: 1, modified_nanos: 2 });
    let read = Ok(NoteRead {
        content: NOTE.into(),
        stat: Some(FileStat { size: 1, mtime_secs: None }),
        fingerprint: fp,
    });
    let r = note_record("1111111111", "/n/1111111111.typ", &read, &snapshot, &[]);
    assert!(r.warning.is_none());
    assert_eq!(str_of(member(&r.value, "title")), Some("First"));
    assert_eq!(r.fingerprint, fp);

    let missing = note_record("2222222222", "/n/2222222222.typ", &read, &snapshot, &[]);
    assert_eq!(
        missing.warning.as_deref(),
        Some("/n/2222222222.typ: Missing metadata for current note")
    );

    let unread: Result<NoteRead, String> = Err("gone".into());
    let r = note_record("1111111111", "/n/x.typ", &unread, &snapshot, &[]);
    assert_eq!(r.warning.as_deref(), Some("reading /n/x.typ: gone"));
    assert_eq!(r.fingerprint, None);

    let bad = build_note_info_value_from_content(
        "1111111111",
        "/n",
        "= Broken <1111111111>\n",
        &MetadataRecord::default(),
        &[],
    );
    assert!(bad.unwrap_err().contains("Failed to parse note"));
}

#[test]
fn cached_records_are_reused_only_for_the_same_fingerprint() {
    let c = CachedNoteRecord {
        fingerprint: FileFingerprint { size: 1, modified_nanos: 2 },
        value: JsonValue::Null,
        warning: None,
    };
    let same = Some(FileFingerprint { size: 1, modified_nanos: 2 });
    let other = Some(FileFingerprint { size: 1, modified_nanos: 3 });
    assert!(cached_note_record("1", Some(&c), same).is_some());
    assert!(cached_note_record("1", Some(&c), other).is_none());
    assert!(cached_note_record("1", None, same).is_none());
}
