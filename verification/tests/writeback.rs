use std::collections::HashMap;

use zk_lsp::reconcile::types::CheckboxWriteback;
use zk_lsp::reconcile::writeback::{
    is_note_done, is_note_done_with_deps, normalize_note, normalize_note_from_checked,
    update_nested_checkboxes, update_ref_checkboxes_sync, get_todo_state, replace_todo_state,
};
use zk_lsp::StringHashMap;

#[test]
fn all_children_done_parent_becomes_checked() {
    let input = "- [ ] parent\n  - [x] child one\n  - [x] child two\n";
    let out = update_nested_checkboxes(input);
    assert_eq!(out, "- [x] parent\n  - [x] child one\n  - [x] child two\n");
}

#[test]
fn any_child_incomplete_parent_becomes_unchecked() {
    let input = "- [x] parent\n  - [x] child one\n  - [ ] child two\n";
    let out = update_nested_checkboxes(input);
    assert_eq!(out, "- [ ] parent\n  - [x] child one\n  - [ ] child two\n");
}

#[test]
fn three_level_nesting_propagates_to_grandparent() {
    let input = "- [ ] grandparent\n  - [ ] parent\n    - [x] grandchild\n";
    let out = update_nested_checkboxes(input);
    assert_eq!(out, "- [x] grandparent\n  - [x] parent\n    - [x] grandchild\n");
}

#[test]
fn leaf_items_unchanged() {
    let input = "- [ ] leaf one\n- [x] leaf two\n";
    let out = update_nested_checkboxes(input);
    assert_eq!(out, input);
}

#[test]
fn sibling_groups_resolved_independently() {
    let input = "- [ ] group a\n  - [x] a child\n- [ ] group b\n  - [ ] b child\n";
    let out = update_nested_checkboxes(input);
    assert_eq!(
        out,
        "- [x] group a\n  - [x] a child\n- [ ] group b\n  - [ ] b child\n"
    );
}

#[test]
fn trailing_newline_preserved() {
    let with_nl = "- [ ] p\n  - [x] c\n";
    let without_nl = "- [ ] p\n  - [x] c";
    assert!(update_nested_checkboxes(with_nl).ends_with('\n'));
    assert!(!update_nested_checkboxes(without_nl).ends_with('\n'));
}

#[test]
fn fenced_checkboxes_are_not_modified() {
    let input = "- [ ] real item\n```\n- [ ] fake in fence\n```\n";
    let dep_states = StringHashMap::new();
    let after_refs = update_ref_checkboxes_sync(input, &dep_states);
    assert_eq!(after_refs, input);
    let after_nested = update_nested_checkboxes(input);
    assert_eq!(after_nested, input);
}

#[test]
fn parent_ref_not_overridden_by_done_children() {
    let input = "- [ ] @1234567890 task\n  - [x] child\n";
    let dep_states = StringHashMap::new();
    let after_refs = update_ref_checkboxes_sync(input, &dep_states);
    let out = update_nested_checkboxes(&after_refs);
    assert!(out.starts_with("- [ ]"));
}

#[test]
fn parent_ref_and_children_both_done_promotes_parent() {
    let input = "- [ ] @1234567890 task\n  - [ ] child\n";
    let mut dep_states = StringHashMap::new();
    dep_states.insert("1234567890".to_string(), true);
    let after_refs = update_ref_checkboxes_sync(input, &dep_states);
    let out = update_nested_checkboxes(&after_refs);
    assert!(out.starts_with("- [ ]"));
}

#[test]
fn none_status_does_not_rewrite_ref_checkbox() {
    let input = "- [x] @1234567890 task\n";
    let checked_by_line = HashMap::from([(0usize, CheckboxWriteback::Keep)]);
    let out = normalize_note_from_checked(input, &checked_by_line);
    assert_eq!(out, input);
}

// --- further cases ---

#[test]
fn normalize_note_is_pure() {
    let content = "- [ ] @1234567890 do thing\n";
    let mut dep_states = StringHashMap::new();
    dep_states.insert("1234567890".to_string(), true);
    let result = normalize_note(content, &dep_states);
    assert!(result.contains("- [x]"), "checkbox should be checked");
}

#[test]
fn unchanged_content_keeps_carriage_returns() {
    let input = "- [x] @1234567890\r\nplain\r\n";
    let mut dep_states = StringHashMap::new();
    dep_states.insert("1234567890".to_string(), true);
    assert_eq!(update_ref_checkboxes_sync(input, &dep_states), input);
    let dep_states = StringHashMap::new();
    assert_eq!(update_ref_checkboxes_sync(input, &dep_states), "- [ ] @1234567890\nplain\n");
}

#[test]
fn writeback_checked_by_line() {
    let input = "- [ ] @1234567890 a\n- [x] @1234567890 b\n";
    let map = HashMap::from([(0usize, CheckboxWriteback::Checked), (1usize, CheckboxWriteback::Unchecked)]);
    assert_eq!(normalize_note_from_checked(input, &map), "- [x] @1234567890 a\n- [ ] @1234567890 b\n");
}

#[test]
fn todo_state_helpers() {
    assert_eq!(get_todo_state("  - [x] a"), Some('x'));
    assert_eq!(get_todo_state("- [x"), None);
    assert_eq!(replace_todo_state("  - [ ] a", 'x'), Some("  - [x] a".to_string()));
    assert_eq!(replace_todo_state("text", 'x'), None);
}

const NOTE: &str = "#let zk-metadata = zk_metadata(\"1111111111\")\n= Note <1111111111>\n";

#[test]
fn note_done_rules() {
    assert!(!is_note_done("- [x] no header\n"));
    assert!(is_note_done(NOTE));
    let with_items = format!("{NOTE}- [x] a\n- [ ] @2222222222\n");
    assert!(!is_note_done(&with_items));
    let mut deps = StringHashMap::new();
    deps.insert("2222222222".to_string(), true);
    assert!(is_note_done_with_deps(&with_items, &deps));
    let parent = format!("{NOTE}- [ ] parent\n  - [x] child\n");
    assert!(is_note_done(&parent));
}
