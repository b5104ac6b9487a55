use zk_lsp::cycle::{detect_cycles, render_cycle_errors};
use zk_lsp::dependency_graph::build_dependency_graph;
use zk_lsp::reconcile::observe::NoteSource;

fn simple_notes(pairs: &[(&str, &str, &str)]) -> Vec<NoteSource> {
    pairs
        .iter()
        .map(|(id, _title, content)| NoteSource {
            id: id.to_string(),
            file_path: format!("{id}.typ"),
            content: content.to_string(),
        })
        .collect()
}

#[test]
fn test_detect_simple_cycle() {
    let notes = simple_notes(&[
        ("1111111111", "A", "- [ ] @2222222222\n"),
        ("2222222222", "B", "- [ ] @1111111111\n"),
    ]);
    let graph = build_dependency_graph(&notes);
    let cycles = detect_cycles(&graph);
    assert_eq!(cycles.len(), 1, "expected 1 cycle");
    assert_eq!(cycles[0].nodes.len(), 2);
    assert_eq!(cycles[0].edges.len(), 2, "expected 2 edge occurrences in cycle");
}

#[test]
fn test_detect_self_loop() {
    let notes = simple_notes(&[("1111111111", "A", "- [ ] @1111111111\n")]);
    let graph = build_dependency_graph(&notes);
    let cycles = detect_cycles(&graph);
    assert_eq!(cycles.len(), 1, "expected 1 cycle (self-loop)");
    assert_eq!(cycles[0].nodes.len(), 1);
    assert_eq!(cycles[0].edges.len(), 1);
}

#[test]
fn test_no_cycle_on_dag() {
    let notes = simple_notes(&[
        ("1111111111", "A", "- [ ] @2222222222\n"),
        ("2222222222", "B", "- [ ] @3333333333\n"),
        ("3333333333", "C", ""),
    ]);
    let graph = build_dependency_graph(&notes);
    let cycles = detect_cycles(&graph);
    assert!(cycles.is_empty(), "expected no cycles in a DAG");
}

#[test]
fn test_render_format() {
    let notes = simple_notes(&[
        ("1111111111", "A", "- [ ] @2222222222\n"),
        ("2222222222", "B", "- [ ] @1111111111\n"),
    ]);
    let graph = build_dependency_graph(&notes);
    let cycles = detect_cycles(&graph);
    let rendered = render_cycle_errors(&cycles);
    assert!(rendered.contains("error:"), "should contain error:");
    assert!(rendered.contains("-->"), "should contain -->");
    assert!(rendered.contains('^'), "should contain ^ underline");
    assert!(rendered.contains("cycle:"), "should contain cycle:");
    assert!(rendered.contains("->"), "should contain -> in cycle chain");
}

#[test]
fn render_exact_report_for_two_note_cycle() {
    let notes = simple_notes(&[
        ("1111111111", "A", "- [ ] @2222222222\n"),
        ("2222222222", "B", "- [ ] @1111111111\n"),
    ]);
    let graph = build_dependency_graph(&notes);
    let cycles = detect_cycles(&graph);
    assert_eq!(cycles[0].nodes, vec!["2222222222".to_string(), "1111111111".to_string()]);
    let rendered = render_cycle_errors(&cycles);
    assert!(rendered.starts_with("error: cyclic task dependency detected\n"));
    assert!(rendered.contains("1111111111.typ:1:7"));
    assert!(rendered.contains("2222222222 -> 1111111111 -> 2222222222"));
}

#[test]
fn edges_to_unknown_notes_are_nodes_without_cycles() {
    let notes = simple_notes(&[("1111111111", "A", "- [ ] @9999999999\n- [x] @9999999999\n")]);
    let graph = build_dependency_graph(&notes);
    assert_eq!(graph.nodes.len(), 2);
    assert_eq!(graph.adj[0], vec![1]);
    assert_eq!(graph.occurrences.len(), 2);
    assert!(detect_cycles(&graph).is_empty());
}

#[test]
fn render_of_no_cycles_is_empty() {
    assert_eq!(render_cycle_errors(&[]), "");
}

#[test]
fn cycles_are_exactly_the_strongly_connected_components() {
    // A <-> B form one component, C has an edge to itself, D only points
    // into the A/B component and lies on no cycle.
    let notes = simple_notes(&[
        ("1111111111", "A", "- [ ] @2222222222\n"),
        ("2222222222", "B", "- [ ] @1111111111\n- [ ] @3333333333\n"),
        ("3333333333", "C", "- [ ] @3333333333\n"),
        ("4444444444", "D", "- [ ] @1111111111\n"),
    ]);
    let graph = build_dependency_graph(&notes);
    let cycles = detect_cycles(&graph);
    assert_eq!(cycles.len(), 2);
    let mut found: Vec<Vec<String>> = cycles
        .iter()
        .map(|c| {
            let mut ids = c.nodes.clone();
            ids.sort();
            ids
        })
        .collect();
    found.sort();
    assert_eq!(
        found,
        vec![
            vec!["1111111111".to_string(), "2222222222".to_string()],
            vec!["3333333333".to_string()],
        ]
    );
}
