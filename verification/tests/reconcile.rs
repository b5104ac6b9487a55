use zk_lsp::reconcile::observe::NoteSource;
use zk_lsp::reconcile::writeback::normalize_note;
use zk_lsp::reconcile::{
    after_round, compute_node_done, exhausted, extract_todo_deps, is_note_done, reconcile_round,
    solve_global,
};
use zk_lsp::StringHashMap;

fn make_toml_note(title: &str, id: &str, status: &str, body: &str) -> String {
    format!(
        "#import \"../include.typ\": *\n\
         #let zk-metadata = toml(bytes(\n\
         \x20 ```toml\n\
         \x20 schema-version = 1\n\
         \x20 title = \"{title}\"\n\
         \x20 tags = []\n\
         \x20 checklist-status = \"{status}\"\n\
         \x20 generated = false\n\
         \x20 ```.text,\n\
         ))\n\
         #show: zettel.with(metadata: zk-metadata)\n\
         \n\
         = {title} <{id}>\n\
         {body}"
    )
}

fn central_note(title: &str, id: &str, body: &str) -> String {
    format!(
        "#import \"../include.typ\": *\n\
         #let zk-metadata = zk_metadata(\"{id}\")\n\
         #show: zettel.with(metadata: zk-metadata)\n\
         \n\
         = {title} <{id}>\n\
         {body}"
    )
}

fn source(id: &str, content: &str) -> NoteSource {
    NoteSource { id: id.to_string(), file_path: format!("{id}.typ"), content: content.to_string() }
}

fn deps_of(content: &str, global: &StringHashMap<bool>) -> StringHashMap<bool> {
    let mut deps = StringHashMap::new();
    for dep_id in extract_todo_deps(content) {
        let done = global.get(dep_id.as_str()).copied().unwrap_or(false);
        deps.insert(dep_id, done);
    }
    deps
}

#[test]
fn scc_cycle_no_spurious_done() {
    let content_a = "- [ ] @2222222222\n";
    let content_b = "- [ ] @1111111111\n";
    let notes = vec![source("1111111111", content_a), source("2222222222", content_b)];
    let global = solve_global(&notes);
    assert!(!global.get("1111111111").copied().unwrap_or(true));
    assert!(!global.get("2222222222").copied().unwrap_or(true));
}

#[test]
fn chain_propagation() {
    let content_a = make_toml_note("A", "1010101010", "done", "");
    let content_b = make_toml_note("B", "2020202020", "none", "- [ ] @1010101010\n");
    let content_c = make_toml_note("C", "3030303030", "none", "- [ ] @2020202020\n");

    let mut dep_a: StringHashMap<bool> = StringHashMap::new();
    let normalized_a = normalize_note(&content_a, &dep_a);
    assert!(is_note_done(&normalized_a), "A should be done");

    dep_a.insert("1010101010".to_string(), true);
    let normalized_b = normalize_note(&content_b, &dep_a);
    assert!(normalized_b.contains("- [x]"), "B's ref to A should be checked");
    let b_done = is_note_done(&normalized_b);

    let mut dep_b: StringHashMap<bool> = StringHashMap::new();
    dep_b.insert("2020202020".to_string(), b_done);
    let normalized_c = normalize_note(&content_c, &dep_b);
    if b_done {
        assert!(normalized_c.contains("- [x]"), "C's ref to B should be checked when B is done");
    }
}

#[test]
fn reconcile_idempotent_in_memory() {
    let content_a = make_toml_note("A", "4040404040", "done", "");
    let content_b = make_toml_note("B", "5050505050", "none", "- [ ] @4040404040\n");
    let notes = vec![source("4040404040", &content_a), source("5050505050", &content_b)];

    let global = solve_global(&notes);
    let mut notes2: Vec<NoteSource> = Vec::new();
    for rec in &notes {
        let deps = deps_of(&rec.content, &global);
        notes2.push(NoteSource {
            id: rec.id.clone(),
            file_path: rec.file_path.clone(),
            content: normalize_note(&rec.content, &deps),
        });
    }

    let global2 = solve_global(&notes2);
    let mut changed = 0usize;
    for rec in &notes2 {
        let deps = deps_of(&rec.content, &global2);
        let new_content = normalize_note(&rec.content, &deps);
        if new_content != rec.content {
            changed += 1;
            println!("id={} changed:\n---\n{}\n---\n{}\n---", rec.id, rec.content, new_content);
        }
    }
    assert_eq!(changed, 0, "second round should produce no changes");
}

#[test]
fn extract_todo_deps_takes_task_lines_only_once_each() {
    let content = "- [ ] @1111111111 and @2222222222\n\
                   plain @3333333333\n\
                   \x20 - [x] @1111111111 @4444444444\n";
    assert_eq!(
        extract_todo_deps(content),
        vec!["1111111111".to_string(), "2222222222".to_string(), "4444444444".to_string()]
    );
}

#[test]
fn note_without_header_is_not_done() {
    assert!(!is_note_done("- [x] a\n"));
    assert!(!is_note_done("= Title <1234567890>\n- [x] a\n"));
}

#[test]
fn central_note_with_open_task_is_not_done() {
    assert!(is_note_done(&central_note("N", "1234567890", "- [x] a\n")));
    assert!(!is_note_done(&central_note("N", "1234567890", "- [x] a\n- [ ] b\n")));
}

#[test]
fn compute_node_done_counts_ref_items_by_recorded_state() {
    let content = central_note("N", "1234567890", "- [ ] @1111111111\n");
    let mut deps = StringHashMap::new();
    deps.insert("1111111111".to_string(), true);
    assert!(!compute_node_done(&content, &deps));
    let local = central_note("N", "1234567890", "- [ ] parent\n  - [x] child\n");
    assert!(compute_node_done(&local, &deps));
    let open = central_note("N", "1234567890", "- [x] parent\n  - [ ] child\n");
    assert!(!compute_node_done(&open, &deps));
}

#[test]
fn ref_items_count_by_recorded_states_so_only_one_level_propagates() {
    let a = central_note("A", "1010101010", "- [x] done\n");
    let b = central_note("B", "2020202020", "- [ ] @1010101010\n");
    let c = central_note("C", "3030303030", "- [ ] @2020202020\n");
    let notes = vec![source("3030303030", &c), source("2020202020", &b), source("1010101010", &a)];
    let global = solve_global(&notes);
    assert_eq!(global.get("1010101010").copied(), Some(true));
    assert_eq!(global.get("2020202020").copied(), Some(false));
    assert_eq!(global.get("3030303030").copied(), Some(false));
    let plan = reconcile_round(&notes);
    assert_eq!(plan.len(), 3);
    assert_eq!(plan[0], None);
    assert_eq!(plan[1].as_deref(), Some(central_note("B", "2020202020", "- [x] @1010101010\n").as_str()));
    assert_eq!(plan[2], None);
}

#[test]
fn unknown_dependency_is_not_done() {
    let b = central_note("B", "2020202020", "- [x] @9999999999\n");
    let notes = vec![source("2020202020", &b)];
    let global = solve_global(&notes);
    assert_eq!(global.get("9999999999").copied(), Some(false));
    assert_eq!(global.get("2020202020").copied(), Some(false));
    let plan = reconcile_round(&notes);
    assert_eq!(plan[0].as_deref(), Some(central_note("B", "2020202020", "- [ ] @9999999999\n").as_str()));
}

#[test]
fn round_outcomes() {
    assert_eq!(after_round(0, 3, 2).0, 5);
    assert!(after_round(0, 3, 2).1.is_none());
    let (total, stats) = after_round(4, 5, 0);
    assert_eq!(total, 5);
    let stats = stats.unwrap();
    assert_eq!(stats.rounds, 5);
    assert_eq!(stats.files_changed, 5);
    assert!(stats.converged);
    let s = exhausted(10, 7);
    assert_eq!((s.rounds, s.files_changed, s.converged), (10, 7, false));
}

#[test]
fn dependencies_are_solved_before_their_dependents() {
    // 1111111111 depends on 2222222222, which depends on 3333333333: each
    // note's state is computed from its dependency's final state, even
    // though the dependents come first by ID.
    let content_c = central_note("C", "1111111111", "- [ ] @2222222222\n");
    let content_b = central_note("B", "2222222222", "- [ ] @3333333333\n");
    let content_a = central_note("A", "3333333333", "- [x] finished\n");
    let notes = vec![
        source("1111111111", &content_c),
        source("2222222222", &content_b),
        source("3333333333", &content_a),
    ];
    let global = solve_global(&notes);
    let a = global.get("3333333333").copied().unwrap_or(false);
    assert!(a, "a note whose only task is checked is done");
    let mut dep_a = StringHashMap::new();
    dep_a.insert("3333333333".to_string(), a);
    let b = global.get("2222222222").copied().unwrap_or(false);
    assert_eq!(b, compute_node_done(&content_b, &dep_a));
    let mut dep_b = StringHashMap::new();
    dep_b.insert("2222222222".to_string(), b);
    let c = global.get("1111111111").copied().unwrap_or(false);
    assert_eq!(c, compute_node_done(&content_c, &dep_b));
}
