use zk_lsp::handlers::code_actions::{
    get_code_actions, get_metadata_actions, metadata_record_end_line, ActionDiagnostic, ActionKind, DiagnosticData,
    TextRange,
};

const METADATA_ACTIVE: &str = "format-version = 1\n\n\
[notes.\"2603110000\"]\n\
schema-version = 1\n\
checklist-status = \"none\"\n\
relation = \"active\"\n\
relation-target = []\n";

#[test]
fn metadata_actions_checklist_status_cycle() {
    let actions = get_metadata_actions(METADATA_ACTIVE, 4, 4);
    let titles: Vec<&str> = actions.iter().map(|a| a.title.as_str()).collect();
    assert!(titles.iter().any(|t| t.contains("todo")));
    assert!(titles.iter().any(|t| t.contains("wip")));
    assert!(titles.iter().any(|t| t.contains("done")));
}

#[test]
fn code_actions_offer_relation_target_rewrites() {
    let diagnostic = ActionDiagnostic {
        range: TextRange { start_line: 0, start_col: 6, end_line: 0, end_col: 17 },
        source: Some("zk-lsp".into()),
        data: Some(DiagnosticData {
            kind: "legacy".into(),
            old_id: "1111111111".into(),
            new_ids: Some(vec!["2222222222".into(), "3333333333".into()]),
            replacement: None,
        }),
    };
    let actions = get_code_actions(&[diagnostic]);
    let titles = actions.iter().map(|a| a.title.as_str()).collect::<Vec<_>>();
    assert!(titles.contains(&"Fix: Replace @1111111111 with @2222222222"));
    assert!(titles.contains(&"Fix: Replace @1111111111 with @3333333333"));
    assert!(titles.contains(&"Fix: Replace @1111111111 with all relation-target IDs"));
}

#[test]
fn code_actions_exact_edits_and_skips() {
    let ours = ActionDiagnostic {
        range: TextRange { start_line: 2, start_col: 1, end_line: 2, end_col: 12 },
        source: Some("zk-lsp".into()),
        data: Some(DiagnosticData {
            kind: "legacy".into(),
            old_id: "1111111111".into(),
            new_ids: Some(vec!["2222222222".into()]),
            replacement: None,
        }),
    };
    let foreign = ActionDiagnostic { range: ours.range, source: Some("other".into()), data: None };
    let actions = get_code_actions(&[foreign, ours]);
    assert_eq!(actions.len(), 2);
    assert_eq!(actions[0].diagnostic, Some(1));
    assert_eq!(actions[0].kind, ActionKind::QuickFix);
    assert_eq!(actions[0].edits[0].new_text, "@2222222222");
    assert_eq!(actions[1].title, "Fix: Keep @1111111111 and append @2222222222");
    assert_eq!(actions[1].edits[0].new_text, "@1111111111 @2222222222");
}

#[test]
fn metadata_actions_exact_for_active_record() {
    let actions = get_metadata_actions(METADATA_ACTIVE, 3, 5);
    let titles: Vec<&str> = actions.iter().map(|a| a.title.as_str()).collect();
    assert_eq!(
        titles,
        vec![
            "ZK: Set checklist-status to todo",
            "ZK: Set checklist-status to wip",
            "ZK: Set checklist-status to done",
            "ZK: Mark as archived",
            "ZK: Mark as legacy",
        ]
    );
    assert_eq!(actions[0].edits[0].new_text, "checklist-status = \"todo\"");
    assert_eq!(actions[0].edits[0].range, TextRange { start_line: 4, start_col: 0, end_line: 4, end_col: 25 });
    assert_eq!(actions[3].edits.len(), 1, "relation-target exists");
    assert_eq!(actions[3].edits[0].new_text, "relation = \"archived\"");
}

#[test]
fn metadata_actions_for_archived_record_without_target() {
    let content = "[notes.\"2603110000\"]\nchecklist-status = \"wip\"\nrelation = \"archived\"\n";
    let actions = get_metadata_actions(content, 1, 1);
    let titles: Vec<&str> = actions.iter().map(|a| a.title.as_str()).collect();
    assert_eq!(
        titles,
        vec![
            "ZK: Set checklist-status to none",
            "ZK: Set checklist-status to todo",
            "ZK: Set checklist-status to done",
            "ZK: Mark as active",
            "ZK: Mark as legacy",
        ]
    );
    let legacy = &actions[4];
    assert_eq!(legacy.edits.len(), 2);
    assert_eq!(legacy.edits[1].new_text, "relation-target = [\"\"]\n");
    assert_eq!(legacy.edits[1].range, TextRange { start_line: 3, start_col: 0, end_line: 3, end_col: 0 });
}

#[test]
fn metadata_actions_need_selection_inside_record() {
    assert!(get_metadata_actions(METADATA_ACTIVE, 0, 0).is_empty());
    assert!(get_metadata_actions(METADATA_ACTIVE, 3, 9).is_empty());
    assert_eq!(metadata_record_end_line(METADATA_ACTIVE, "2603110000"), Some(6));
    assert_eq!(metadata_record_end_line(METADATA_ACTIVE, "9999999999"), None);
}
