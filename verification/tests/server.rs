use zk_lsp::parser;
use zk_lsp::server::{apply_content_changes, position_to_byte_offset, ContentChange, Position, Range};

#[test]
fn apply_content_changes_updates_incremental_edits() {
    let mut content = "第一行\nhello @1234567890\n".to_string();
    apply_content_changes(
        &mut content,
        &[ContentChange {
            range: Some(Range {
                start: Position {
                    line: 1,
                    character: 6,
                },
                end: Position {
                    line: 1,
                    character: 17,
                },
            }),
            text: "@0000000001".into(),
        }],
    );

    assert_eq!(content, "第一行\nhello @0000000001\n");
}

#[test]
fn position_to_byte_offset_handles_utf16_columns() {
    let content = "第一行\nab界c\n";
    let offset = position_to_byte_offset(
        content,
        Position {
            line: 1,
            character: parser::byte_to_utf16("ab界c", "ab界".len()),
        },
    );

    assert_eq!(&content[offset..], "c\n");
}

#[test]
fn positions_past_the_line_or_text_clamp() {
    let content = "ab\ncd";
    assert_eq!(position_to_byte_offset(content, Position { line: 0, character: 9 }), 2);
    assert_eq!(position_to_byte_offset(content, Position { line: 1, character: 1 }), 4);
    assert_eq!(position_to_byte_offset(content, Position { line: 7, character: 0 }), 5);
    assert_eq!(position_to_byte_offset("a😀b", Position { line: 0, character: 3 }), 5);
}

#[test]
fn change_without_range_replaces_everything() {
    let mut content = "old".to_string();
    apply_content_changes(
        &mut content,
        &[
            ContentChange { range: None, text: "new text".into() },
            ContentChange {
                range: Some(Range {
                    start: Position { line: 0, character: 0 },
                    end: Position { line: 0, character: 3 },
                }),
                text: "a".into(),
            },
        ],
    );
    assert_eq!(content, "a text");
}
