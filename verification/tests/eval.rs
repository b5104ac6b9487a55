use zk_lsp::reconcile::ast::Module;
use zk_lsp::reconcile::default_module::DEFAULT_MODULE;
use zk_lsp::reconcile::eval::{aggregate_status, eval_all, EvalResult};
use zk_lsp::reconcile::materialize::materialize;
use zk_lsp::reconcile::observe::{NoteSource, WorkspaceSnapshot};
use zk_lsp::reconcile::parser::parse_module;
use zk_lsp::reconcile::types::{DiagnosticKind, Status, Value};

fn default_module() -> Module {
    parse_module(DEFAULT_MODULE).expect("default module must parse")
}

fn make_toml_note(title: &str, id: &str, status: &str, body: &str) -> String {
    format!(
        "#import \"../include.typ\": *\n\
         #let zk-metadata = toml(bytes(\n\
         \x20 ```toml\n\
         \x20 schema-version = 1\n\
         \x20 title = \"{title}\"\n\
         \x20 tags = []\n\
         \x20 checklist-status = \"{status}\"\n\
         \x20 generated = false\n\
         \x20 ```.text,\n\
         ))\n\
         #show: zettel.with(metadata: zk-metadata)\n\
         \n\
         = {title} <{id}>\n\
         {body}"
    )
}

fn make_archived_note(title: &str, id: &str, body: &str) -> String {
    format!(
        "#import \"../include.typ\": *\n\
         #let zk-metadata = toml(bytes(\n\
         \x20 ```toml\n\
         \x20 schema-version = 1\n\
         \x20 title = \"{title}\"\n\
         \x20 tags = []\n\
         \x20 checklist-status = \"none\"\n\
         \x20 relation = \"archived\"\n\
         \x20 relation-target = []\n\
         \x20 generated = false\n\
         \x20 ```.text,\n\
         ))\n\
         #show: zettel.with(metadata: zk-metadata)\n\
         \n\
         = {title} <{id}>\n\
         {body}"
    )
}

fn snapshot_from(notes: &[(&str, &str)]) -> WorkspaceSnapshot {
    let sources: Vec<NoteSource> = notes
        .iter()
        .map(|(id, content)| NoteSource {
            id: id.to_string(),
            file_path: format!("{id}.typ"),
            content: content.to_string(),
        })
        .collect();
    WorkspaceSnapshot::from_note_map(&sources)
}

fn checklist_status_field(result: &EvalResult, note_id: &str) -> Option<Status> {
    result
        .meta(note_id, "checklist-status")
        .and_then(|value| match value {
            Value::Status(status) => Some(*status),
            _ => None,
        })
}

#[test]
fn local_checkboxes_all_done() {
    let content = make_toml_note("A", "1111111111", "none", "- [x] task1\n- [x] task2\n");
    let snap = snapshot_from(&[("1111111111", &content)]);
    let module = default_module();
    let result = eval_all(&module, &snap);
    assert_eq!(
        checklist_status_field(&result, "1111111111"),
        Some(Status::Done)
    );
}

#[test]
fn local_checkboxes_mixed() {
    let content = make_toml_note("A", "1111111111", "none", "- [x] done\n- [ ] pending\n");
    let snap = snapshot_from(&[("1111111111", &content)]);
    let module = default_module();
    let result = eval_all(&module, &snap);
    assert_eq!(
        checklist_status_field(&result, "1111111111"),
        Some(Status::Wip)
    );
}

#[test]
fn ref_checkbox_target_done() {
    let note_b = make_toml_note("B", "2222222222", "done", "");
    let note_a = make_toml_note("A", "1111111111", "none", "- [ ] @2222222222\n");
    let snap = snapshot_from(&[("1111111111", &note_a), ("2222222222", &note_b)]);
    let module = default_module();
    let result = eval_all(&module, &snap);
    assert_eq!(
        checklist_status_field(&result, "1111111111"),
        Some(Status::Done)
    );
}

#[test]
fn parent_with_partially_done_children_becomes_wip() {
    let content = make_toml_note(
        "A",
        "1111111111",
        "none",
        "- [ ] parent\n  - [x] child done\n  - [ ] child todo\n",
    );
    let snap = snapshot_from(&[("1111111111", &content)]);
    let module = default_module();
    let result = eval_all(&module, &snap);
    assert_eq!(
        checklist_status_field(&result, "1111111111"),
        Some(Status::Wip)
    );
}

#[test]
fn cycle_error_policy() {
    let a = make_toml_note("A", "1111111111", "none", "- [ ] @2222222222\n");
    let b = make_toml_note("B", "2222222222", "none", "- [ ] @1111111111\n");
    let snap = snapshot_from(&[("1111111111", &a), ("2222222222", &b)]);
    let module = default_module();
    let result = eval_all(&module, &snap);
    assert!(result
        .diagnostics
        .iter()
        .any(|diag| diag.kind == DiagnosticKind::Cycle));
}

#[test]
fn archived_note_always_done() {
    let content = make_archived_note("A", "1111111111", "- [ ] unchecked\n");
    let snap = snapshot_from(&[("1111111111", &content)]);
    let module = default_module();
    let result = eval_all(&module, &snap);
    assert_eq!(
        checklist_status_field(&result, "1111111111"),
        Some(Status::Done)
    );
}

#[test]
fn aggregate_status_preserves_all_none() {
    assert_eq!(
        aggregate_status(&[Status::NotApplicable, Status::NotApplicable]),
        Status::NotApplicable
    );
}

#[test]
fn aggregate_status_ignores_none_when_other_statuses_exist() {
    assert_eq!(
        aggregate_status(&[Status::NotApplicable, Status::Todo]),
        Status::Todo
    );
    assert_eq!(
        aggregate_status(&[Status::NotApplicable, Status::Done]),
        Status::Done
    );
    assert_eq!(
        aggregate_status(&[Status::NotApplicable, Status::Todo, Status::Done]),
        Status::Wip
    );
}

fn get_int_meta(result: &EvalResult, note_id: &str, field: &str) -> Option<i64> {
    result.meta(note_id, field).and_then(|v| match v {
        Value::Int(n) => Some(*n),
        _ => None,
    })
}

fn get_str_meta(result: &EvalResult, note_id: &str, field: &str) -> Option<String> {
    result.meta(note_id, field).and_then(|v| match v {
        Value::String(s) => Some(s.to_string()),
        _ => None,
    })
}

#[test]
fn reduce_adds_integers() {
    let src = r#"
    (module
      (define (materialized_fields n) (list "user.sum"))
      (define (effective_checked c) (observe_checked c))
      (define (effective_meta n field)
        (if (eq? field "user.sum")
            (reduce + 0 (list 1 2 3))
            (observe_meta n field))))
    "#;
    let module = parse_module(src).expect("parse");
    let content = make_toml_note("A", "1111111111", "none", "");
    let snap = snapshot_from(&[("1111111111", &content)]);
    let result = eval_all(&module, &snap);
    assert!(result.diagnostics.is_empty());
    assert_eq!(get_int_meta(&result, "1111111111", "user.sum"), Some(6));
}

#[test]
fn filter_and_length_count_done_backlinks() {
    // A is referenced by B (done) and C (todo); filter keeps only B → length = 1
    let src = r#"
    (module
      (define (materialized_fields n) (list "user.done_count"))
      (define (effective_checked c) (observe_checked c))
      (define (is_done m) (done? (observe_meta m "checklist-status")))
      (define (effective_meta n field)
        (if (eq? field "user.done_count")
            (length (filter is_done (backlinks n)))
            (observe_meta n field))))
    "#;
    let module = parse_module(src).expect("parse");
    let note_a = make_toml_note("A", "1111111111", "none", "");
    let note_b = make_toml_note("B", "2222222222", "done", "- [ ] @1111111111\n");
    let note_c = make_toml_note("C", "3333333333", "todo", "- [ ] @1111111111\n");
    let snap = snapshot_from(&[
        ("1111111111", &note_a),
        ("2222222222", &note_b),
        ("3333333333", &note_c),
    ]);
    let result = eval_all(&module, &snap);
    assert!(result.diagnostics.is_empty());
    assert_eq!(
        get_int_meta(&result, "1111111111", "user.done_count"),
        Some(1)
    );
}

#[test]
fn comparison_and_backlink_threshold() {
    // A has 2 done backlinks; >= 2 → "yes"
    let src = r#"
    (module
      (define (materialized_fields n) (list "user.verified"))
      (define (effective_checked c) (observe_checked c))
      (define (is_done m) (done? (observe_meta m "checklist-status")))
      (define (effective_meta n field)
        (if (eq? field "user.verified")
            (if (>= (length (filter is_done (backlinks n))) 2)
                "yes"
                "no")
            (observe_meta n field))))
    "#;
    let module = parse_module(src).expect("parse");
    let note_a = make_toml_note("A", "1111111111", "none", "");
    let note_b = make_toml_note("B", "2222222222", "done", "- [ ] @1111111111\n");
    let note_c = make_toml_note("C", "3333333333", "done", "- [ ] @1111111111\n");
    let note_d = make_toml_note("D", "4444444444", "todo", "- [ ] @1111111111\n");
    let snap = snapshot_from(&[
        ("1111111111", &note_a),
        ("2222222222", &note_b),
        ("3333333333", &note_c),
        ("4444444444", &note_d),
    ]);
    let result = eval_all(&module, &snap);
    assert!(result.diagnostics.is_empty());
    assert_eq!(
        get_str_meta(&result, "1111111111", "user.verified"),
        Some("yes".to_string())
    );
}

#[test]
fn nil_predicate_root_vs_child() {
    // Root checkboxes have no parent (→ Nil); children have a parent.
    let content = make_toml_note("A", "1111111111", "none", "- [ ] root\n  - [x] child\n");
    let snap = snapshot_from(&[("1111111111", &content)]);
    let checkboxes = snap.local_checkboxes(&"1111111111".to_string());
    assert_eq!(checkboxes.len(), 2);
    assert!(snap.parent(&checkboxes[0]).is_none(), "root → Nil");
    assert!(snap.parent(&checkboxes[1]).is_some(), "child has parent");
}

#[test]
fn backlinks_reverse_index() {
    let note_a = make_toml_note("A", "1111111111", "none", "");
    let note_b = make_toml_note("B", "2222222222", "none", "- [ ] @1111111111\n");
    let snap = snapshot_from(&[("1111111111", &note_a), ("2222222222", &note_b)]);
    assert_eq!(
        snap.backlinks(&"1111111111".to_string()),
        &["2222222222".to_string()]
    );
    assert!(snap.backlinks(&"2222222222".to_string()).is_empty());
}

#[test]
fn owner_note_returns_containing_note_id() {
    let content = make_toml_note("A", "1111111111", "none", "- [ ] task\n");
    let snap = snapshot_from(&[("1111111111", &content)]);
    let checkboxes = snap.local_checkboxes(&"1111111111".to_string());
    assert_eq!(checkboxes.len(), 1);
    assert_eq!(checkboxes[0].note_id, "1111111111");
}

#[test]
fn union_and_dedup_eval() {
    // A has 2 backlinks; union with itself stays 2; dedup of [A, A, B] → [A, B]
    let src = r#"
    (module
      (define (materialized_fields n) (list "user.count"))
      (define (effective_checked c) (observe_checked c))
      (define (effective_meta n field)
        (if (eq? field "user.count")
            (length (dedup (union (backlinks n) (backlinks n))))
            (observe_meta n field))))
    "#;
    let module = parse_module(src).expect("parse");
    let note_a = make_toml_note("A", "1111111111", "none", "");
    let note_b = make_toml_note("B", "2222222222", "none", "- [ ] @1111111111\n");
    let note_c = make_toml_note("C", "3333333333", "none", "- [ ] @1111111111\n");
    let snap = snapshot_from(&[
        ("1111111111", &note_a),
        ("2222222222", &note_b),
        ("3333333333", &note_c),
    ]);
    let result = eval_all(&module, &snap);
    assert!(result.diagnostics.is_empty());
    // backlinks(A) = [B, C]; union with itself = [B, C]; dedup = [B, C]; length = 2
    assert_eq!(get_int_meta(&result, "1111111111", "user.count"), Some(2));
}

#[test]
fn contains_predicate_eval() {
    // Use contains? in effective_meta to check if a specific note is a backlink
    let src = r#"
    (module
      (define (materialized_fields n) (list "user.has_backlink"))
      (define (effective_checked c) (observe_checked c))
      (define (effective_meta n field)
        (if (eq? field "user.has_backlink")
            (if (contains? (backlinks n) n)
                "yes"
                "no")
            (observe_meta n field))))
    "#;
    // A has no self-backlink → "no"
    let module = parse_module(src).expect("parse");
    let note_a = make_toml_note("A", "1111111111", "none", "");
    let snap = snapshot_from(&[("1111111111", &note_a)]);
    let result = eval_all(&module, &snap);
    assert!(result.diagnostics.is_empty());
    assert_eq!(
        get_str_meta(&result, "1111111111", "user.has_backlink"),
        Some("no".to_string())
    );
}

#[test]
fn effective_checked_is_evaluated_for_all_checkboxes() {
    let src = r#"
    (module
      (define (materialized_fields n) (list))
      (define (effective_checked c) done)
      (define (effective_meta n field) (observe_meta n field)))
    "#;
    let module = parse_module(src).expect("module parses");
    let content = make_toml_note("A", "1111111111", "none", "- [ ] task\n");
    let snap = snapshot_from(&[("1111111111", &content)]);
    let result = eval_all(&module, &snap);

    assert_eq!(result.effective_checked.len(), 1);
    assert!(result
        .effective_checked
        .iter()
        .all(|(_, status)| *status == Status::Done));
}

#[test]
fn union_has_no_duplicates_even_from_its_first_list() {
    let src = r#"
    (module
      (define (materialized_fields n) (list "user.count"))
      (define (effective_checked c) (observe_checked c))
      (define (effective_meta n field)
        (if (eq? field "user.count")
            (length (union (list n n) (backlinks n)))
            (observe_meta n field))))
    "#;
    let module = parse_module(src).expect("parse");
    let note_a = make_toml_note("A", "1111111111", "none", "");
    let note_b = make_toml_note("B", "2222222222", "none", "- [ ] @1111111111\n");
    let snap = snapshot_from(&[("1111111111", &note_a), ("2222222222", &note_b)]);
    let result = eval_all(&module, &snap);
    // list(A, A) ∪ backlinks(A) = [A, B]
    assert_eq!(get_int_meta(&result, "1111111111", "user.count"), Some(2));
    for (i, a) in result.effective_meta.iter().enumerate() {
        for b in &result.effective_meta[i + 1..] {
            assert!(!(a.0 == b.0 && a.1 == b.1), "each (note, field) once");
        }
    }
}

#[test]
fn v1_identity() {
    // The note's stored checklist status is "done" (given in its metadata
    // block); materialized values are the effective ones.
    let content = make_toml_note("Test", "1111111111", "done", "");
    let snap = snapshot_from(&[("1111111111", &content)]);
    let module = parse_module(DEFAULT_MODULE).expect("parse");
    let eval_result = eval_all(&module, &snap);

    let result = materialize(eval_result);

    let status = result
        .materialized_meta
        .iter()
        .find(|(id, field, _)| id == "1111111111" && field == "checklist-status")
        .map(|(_, _, v)| v.clone());
    assert_eq!(status, Some(Value::Status(Status::Done)));
}
