use zk_lsp::parser::{
    byte_to_utf16, find_all_link_ids_filtered, find_all_refs, find_all_refs_filtered,
    parse_checklist_items, parse_header, parse_headings, find_metadata_binding,
    ChecklistItemKind, ChecklistStatus,
};

const CENTRAL_NOTE: &str = "#import \"../include.typ\": *\n#let zk-metadata = zk_metadata(\"2603110000\")\n#show: zettel.with(metadata: zk-metadata)\n\n= Central Note <2603110000>\n\nSee @2603110002\n";

#[test]
fn parse_header_requires_central_binding() {
    let h = parse_header(CENTRAL_NOTE).unwrap();
    assert_eq!(h.id, "2603110000");
    assert_eq!(h.title, "Central Note");
    assert_eq!(h.title_line_idx, 4);
}

#[test]
fn parse_header_rejects_missing_or_mismatched_binding() {
    let missing = "#import \"../include.typ\": *\n\n= Note <2603110000>\n";
    let mismatched = "#let zk-metadata = zk_metadata(\"2603110001\")\n= Note <2603110000>\n";
    assert!(parse_header(missing).is_none());
    assert!(parse_header(mismatched).is_none());
}

#[test]
fn checklist_status_roundtrip() {
    for status in ChecklistStatus::ALL {
        assert_eq!(ChecklistStatus::from_str(status.as_str()), Some(status));
    }
}

#[test]
fn find_all_refs_extracts_ids() {
    let refs = find_all_refs("see @2602082037 and @2602082106");
    assert_eq!(refs.len(), 2);
    assert_eq!(refs[0].id, "2602082037");
    assert_eq!(refs[1].id, "2602082106");
}

#[test]
fn byte_to_utf16_cjk() {
    let line = "Hello, world 你好 @2602171536";
    let refs = find_all_refs(line);
    assert_eq!(refs.len(), 1);
    assert_eq!(refs[0].start_char, 20);
    assert_eq!(byte_to_utf16(line, refs[0].start_char as usize), 16);
    assert_eq!(byte_to_utf16(line, refs[0].end_char as usize), 27);
}

#[test]
fn ref_target_spans() {
    let line = "  - [ ] @1111111111 and @2222222222";
    let content = format!("{line}\n");
    let items = parse_checklist_items(&content);
    assert_eq!(items.len(), 1);
    if let ChecklistItemKind::Ref { targets } = &items[0].kind {
        assert_eq!(targets.len(), 2);
        assert_eq!(targets[0].target_id, "1111111111");
        assert_eq!(targets[0].byte_start, 8);
        assert_eq!(targets[0].byte_end, 19);
        assert_eq!(targets[1].target_id, "2222222222");
        assert_eq!(targets[1].byte_start, 24);
        assert_eq!(targets[1].byte_end, 35);
    } else {
        panic!("expected Ref kind");
    }
}

#[test]
fn find_refs_skips_block_comment_and_fenced_block() {
    let content = "see @2602082037\n/* skip @9999999999 */\n```\n@8888888888\n```\nand @2602082106\n";
    let refs = find_all_refs_filtered(content);
    let ids: Vec<&str> = refs.iter().map(|r| r.id.as_str()).collect();
    assert!(ids.contains(&"2602082037"));
    assert!(ids.contains(&"2602082106"));
    assert!(!ids.contains(&"9999999999"));
    assert!(!ids.contains(&"8888888888"));
}

#[test]
fn link_ids_skip_self_title_angle_id() {
    let ids = find_all_link_ids_filtered(CENTRAL_NOTE);
    assert_eq!(ids, vec!["2603110002"]);
}

// --- further cases ---

#[test]
fn binding_requires_exactly_one_line() {
    let one = "#let zk-metadata = zk_metadata(\"2603110000\")\n";
    let b = find_metadata_binding(one).unwrap();
    assert_eq!(b.line_idx, 0);
    assert_eq!(b.id, "2603110000");
    let two = "#let zk-metadata = zk_metadata(\"2603110000\")\n  #let  zk-metadata=zk_metadata(\"2603110001\")  \n";
    assert!(find_metadata_binding(two).is_none());
    assert!(find_metadata_binding("#letzk-metadata = zk_metadata(\"2603110000\")\n").is_none());
}

#[test]
fn checklist_items_skip_fences_and_other_markers() {
    let content = "- [x] done\n- [?] odd\n```\n- [ ] hidden\n```\n  - [X] @1234567890 ref\n- [ ]\n";
    let items = parse_checklist_items(content);
    assert_eq!(items.len(), 3);
    assert!(items[0].checked);
    assert_eq!(items[0].text, "done");
    assert_eq!(items[0].kind, ChecklistItemKind::Local);
    assert_eq!(items[1].line_idx, 5);
    assert_eq!(items[1].indent, 2);
    assert!(items[1].checked);
    assert_eq!(items[2].text, "");
}

#[test]
fn refs_after_multiline_comment_are_found() {
    let content = "a /* x\n@1111111111 */ @2222222222 /* @3333333333 */ @4444444444\n";
    let refs = find_all_refs_filtered(content);
    let ids: Vec<&str> = refs.iter().map(|r| r.id.as_str()).collect();
    assert_eq!(ids, vec!["2222222222", "4444444444"]);
    assert_eq!(refs[0].line, 1);
    assert_eq!(refs[0].start_char, 15);
}

#[test]
fn headings_strip_title_id() {
    let hs = parse_headings("= Title <2603110000>\n== Sub\n```\n= fenced\n```\n=no\n");
    assert_eq!(hs.len(), 2);
    assert_eq!(hs[0].level, 1);
    assert_eq!(hs[0].text, "Title");
    assert_eq!(hs[1].level, 2);
    assert_eq!(hs[1].text, "Sub");
    assert_eq!(hs[1].line_idx, 1);
}

#[test]
fn refs_take_first_ten_digits_and_unicode_offsets() {
    let refs = find_all_refs("é@123456789012");
    assert_eq!(refs.len(), 1);
    assert_eq!(refs[0].id, "1234567890");
    assert_eq!(refs[0].start_char, 2);
    assert_eq!(refs[0].end_char, 13);
}
