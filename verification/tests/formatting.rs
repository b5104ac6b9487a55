use zk_lsp::handlers::formatting::{apply_byte_edits, EditError};
use zk_lsp::hooks::apply::{apply_hook_text_edits, validate_hook_result, HookEditError};
use zk_lsp::hooks::types::{HookResult, HookTextEdit};

fn edit(s: usize, e: usize, t: &str) -> (usize, usize, String) {
    (s, e, t.to_string())
}

#[test]
fn byte_edits_replace_ranges_in_any_order() {
    let content = "- [ ] a\n- [ ] b\n";
    let out = apply_byte_edits(content, &[edit(11, 12, "x"), edit(3, 4, "x")]).unwrap();
    assert_eq!(out, "- [x] a\n- [x] b\n");
}

#[test]
fn byte_edits_insert_and_delete() {
    assert_eq!(apply_byte_edits("abc", &[edit(1, 1, "XY"), edit(2, 3, "")]).unwrap(), "aXYb");
    assert_eq!(apply_byte_edits("abc", &[]).unwrap(), "abc");
}

#[test]
fn byte_edits_on_multibyte_text() {
    assert_eq!(apply_byte_edits("é-b", &[edit(2, 3, "+")]).unwrap(), "é+b");
}

#[test]
fn byte_edit_errors() {
    assert_eq!(apply_byte_edits("abc", &[edit(2, 1, "")]), Err(EditError::Inverted { start: 2, end: 1 }));
    assert_eq!(apply_byte_edits("abc", &[edit(0, 4, "")]), Err(EditError::OutOfBounds { end: 4, len: 3 }));
    let e = apply_byte_edits("abcdef", &[edit(3, 5, "x"), edit(1, 4, "y")]).unwrap_err();
    assert_eq!(e, EditError::Overlap { first_start: 1, first_end: 4, second_start: 3, second_end: 5 });
    assert_eq!(e.message(), "edits overlap: [1, 4) and [3, 5)");
    assert_eq!(EditError::Inverted { start: 2, end: 1 }.message(), "edit has start (2) > end (1)");
    assert_eq!(EditError::OutOfBounds { end: 4, len: 3 }.message(), "edit end (4) out of bounds (len=3)");
}

fn hook_result(edits: Vec<(usize, usize, &str)>) -> HookResult {
    HookResult {
        metadata: Vec::new(),
        edits: edits
            .into_iter()
            .map(|(s, e, t)| HookTextEdit { start_byte: s, end_byte: e, text: t.to_string() })
            .collect(),
    }
}

#[test]
fn hook_edits_are_validated_then_applied() {
    let r = hook_result(vec![(3, 4, "x")]);
    assert!(validate_hook_result(&r, "- [ ] a").is_ok());
    assert_eq!(apply_hook_text_edits(&r, "- [ ] a").unwrap(), "- [x] a");
    assert_eq!(apply_hook_text_edits(&HookResult::default(), "same").unwrap(), "same");
    let bad = hook_result(vec![(0, 9, "")]);
    let e = validate_hook_result(&bad, "abc").unwrap_err();
    assert_eq!(e, HookEditError::OutOfBounds { end_byte: 9, len: 3 });
    assert_eq!(e.message(), "edit end_byte (9) out of bounds (content len=3)");
    let overlap = hook_result(vec![(0, 2, "a"), (1, 3, "b")]);
    assert!(matches!(apply_hook_text_edits(&overlap, "abcd"), Err(HookEditError::Overlap { .. })));
}
