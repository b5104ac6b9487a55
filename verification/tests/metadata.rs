use zk_lsp::metadata::{
    all_id_positions, current_record_id, find_field_line_range, find_record_key_range,
    id_at_position, is_note_id, present_record_fields, MetadataIdKind, MetadataTextRange,
};

#[test]
fn find_record_key_range_accepts_quoted_and_bare_note_keys() {
    let quoted = "format-version = 1\n\n[notes.\"2607081902\"]\nrelation-target = []\n";
    let bare = "format-version = 1\n\n[notes.2607081902]\nrelation-target = []\n";

    assert_eq!(
        find_record_key_range(quoted, "2607081902"),
        Some(MetadataTextRange {
            line: 2,
            start_col: 8,
            end_col: 18
        })
    );
    assert_eq!(
        find_record_key_range(bare, "2607081902"),
        Some(MetadataTextRange {
            line: 2,
            start_col: 7,
            end_col: 17
        })
    );
}

#[test]
fn find_record_key_range_missing_record_is_none() {
    let content = "[notes.\"2607081902\"]\n";
    assert_eq!(find_record_key_range(content, "1111111111"), None);
}

#[test]
fn is_note_id_accepts_exactly_ten_digits() {
    assert!(is_note_id("2607081902"));
    assert!(!is_note_id("260708190"));
    assert!(!is_note_id("26070819021"));
    assert!(!is_note_id("260708190a"));
    assert!(!is_note_id(""));
}

const INDEX: &str = "format-version = 1\n\n[notes.\"2607081902\"]\ntitle = \"A\"\nrelation-target = [\n  \"1111111111\",\n  '2222222222',\n]\n\n[notes.\"2607081902\".user]\nproject = \"zk\"\n\n[notes.3333333333]\nrelation = \"active\"\n\n[other]\nrelation-target = [\"4444444444\"]\n";

#[test]
fn current_record_id_follows_headers() {
    assert_eq!(current_record_id(INDEX, 0), None);
    assert_eq!(current_record_id(INDEX, 3), Some("2607081902".to_string()));
    assert_eq!(current_record_id(INDEX, 10), Some("2607081902".to_string()));
    assert_eq!(current_record_id(INDEX, 13), Some("3333333333".to_string()));
    assert_eq!(current_record_id(INDEX, 16), None);
}

#[test]
fn all_id_positions_lists_record_keys_and_relation_targets() {
    let ps = all_id_positions(INDEX);
    let summary: Vec<(MetadataIdKind, String, String, usize, usize, usize)> = ps
        .iter()
        .map(|p| {
            (
                p.kind,
                p.owner_id.clone(),
                p.target_id.clone(),
                p.range.line,
                p.range.start_col,
                p.range.end_col,
            )
        })
        .collect();
    assert_eq!(
        summary,
        vec![
            (MetadataIdKind::RecordKey, "2607081902".to_string(), "2607081902".to_string(), 2, 8, 18),
            (MetadataIdKind::RelationTarget, "2607081902".to_string(), "1111111111".to_string(), 5, 3, 13),
            (MetadataIdKind::RelationTarget, "2607081902".to_string(), "2222222222".to_string(), 6, 3, 13),
            (MetadataIdKind::RecordKey, "3333333333".to_string(), "3333333333".to_string(), 12, 7, 17),
        ]
    );
}

#[test]
fn id_at_position_finds_the_id_under_the_cursor() {
    let p = id_at_position(INDEX, 5, 5).expect("an id");
    assert_eq!(p.kind, MetadataIdKind::RelationTarget);
    assert_eq!(p.target_id, "1111111111");
    assert!(id_at_position(INDEX, 5, 14).is_none());
    assert!(id_at_position(INDEX, 16, 22).is_none());
}

#[test]
fn find_field_line_range_and_present_fields() {
    let r = find_field_line_range(INDEX, "2607081902", "title").expect("title line");
    assert_eq!(r.line, 3);
    assert_eq!(find_field_line_range(INDEX, "2607081902", "missing"), None);
    let fields = present_record_fields(INDEX, "2607081902");
    assert!(fields.contains(&"title".to_string()));
    assert!(fields.contains(&"relation-target".to_string()));
}
