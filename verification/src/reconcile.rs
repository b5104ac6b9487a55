//! Workspace-wide reconciliation of cross-file checkbox states, and the
//! Reconcile DSL.
//!
//! Note A depends on note B when a task line of A (`- [ ] @B`) names B.
//! The dependency graph is split into strongly connected components with
//! Tarjan's algorithm; the components are solved in topological order,
//! dependencies first, each to a fixed point of its notes' done states;
//! then every ref checkbox is rewritten to follow the done state of its
//! targets.
pub mod types;
pub mod writeback;
pub mod ast;
pub mod parser;
pub mod default_module;
pub mod typecheck;
pub mod observe;
pub mod eval;
pub mod materialize;

use vstd::prelude::*;
use vstd::hash_map::StringHashMap;
use crate::parser::{
    first_title_exec, first_title_line, id_matches, is_todo_line, lemma_id_matches_from_bounds,
    lemma_line_bytes, note_header, parse_header, scan_id_matches, todo_line,
};
use crate::cycle::{sccs_of, strong_components, succ};
use crate::topo::{confirm_order, solve_order};
use crate::dependency_graph::{contains_usize, ids_of, index_of, index_of_exec, kept, kept_sources, picked, rows};
use crate::reconcile::ast::names;
use crate::reconcile::observe::NoteSource;
use crate::reconcile::observe::{find_toml_open, toml_open_from};
use crate::reconcile::writeback::{checklist_done, is_checklist_done, line_ids, nested, normalize_note, ref_sync};
use crate::text::{chars_of, lines, split_lines, str_byte_len, utf8_len, views};

verus! {

/// The outcome of a reconciliation run.
pub struct ReconcileStats {
    /// Rounds run.
    pub rounds: usize,
    /// Files rewritten over all rounds.
    pub files_changed: usize,
    /// Whether the last round changed nothing.
    pub converged: bool,
}

// ---------------------------------------------------------------------------
// Done-ness of a note
// ---------------------------------------------------------------------------

/// The note's inline ```` ```toml ```` metadata block opens above its
/// title line.
pub open spec fn inline_header(content: Seq<char>) -> bool {
    let ls = lines(content);
    match (first_title_line(ls, 0), toml_open_from(ls, 0)) {
        (Some(t), Some(j)) => j < t,
        _ => false,
    }
}

/// A note is done when it has a header (a central metadata binding, or an
/// inline TOML metadata block above the title) and its checklist is done,
/// ref items counting by their targets' recorded states (none here).
pub open spec fn note_done(content: Seq<char>) -> bool {
    (note_header(content) is Some || inline_header(content)) && checklist_done(content, Map::empty())
}

/// Whether a note is done (`note_done`).
pub fn is_note_done(content: &str) -> (r: bool)
    ensures
        r == note_done(content@),
{
    let header = if parse_header(content).is_some() {
        true
    } else {
        let cs = chars_of(content);
        let ls = split_lines(&cs);
        match (first_title_exec(&ls), find_toml_open(&ls)) {
            (Some(t), Some(j)) => j < t,
            _ => false,
        }
    };
    if !header {
        return false;
    }
    let deps = StringHashMap::<bool>::new();
    is_checklist_done(content, &deps)
}

/// Whether a note is done once its checkboxes are normalized under the
/// dependency states `deps`.
pub open spec fn node_done(content: Seq<char>, deps: Map<Seq<char>, bool>) -> bool {
    note_done(nested(ref_sync(content, deps)))
}

/// Whether a note is done once its checkboxes are normalized under the
/// dependency states `dep_states`.
pub fn compute_node_done(content: &str, dep_states: &StringHashMap<bool>) -> (r: bool)
    ensures
        r == node_done(content@, dep_states@),
{
    let updated = normalize_note(content, dep_states);
    is_note_done(updated.as_str())
}

// ---------------------------------------------------------------------------
// Dependency extraction
// ---------------------------------------------------------------------------

/// `acc` extended by the entries of `ids[..k]` it lacks, in order.
pub open spec fn add_new(acc: Seq<Seq<char>>, ids: Seq<Seq<char>>, k: int) -> Seq<Seq<char>>
    decreases k,
{
    if k <= 0 {
        acc
    } else {
        let prev = add_new(acc, ids, k - 1);
        if prev.contains(ids[k - 1]) {
            prev
        } else {
            prev.push(ids[k - 1])
        }
    }
}

/// The distinct `@ID`s of the task lines among `ls[..n]`, in order.
pub open spec fn deps_upto(ls: Seq<Seq<char>>, n: int) -> Seq<Seq<char>>
    decreases n,
{
    if n <= 0 {
        seq![]
    } else {
        let prev = deps_upto(ls, n - 1);
        if is_todo_line(ls[n - 1]) {
            let ids = line_ids(ls[n - 1]);
            add_new(prev, ids, ids.len() as int)
        } else {
            prev
        }
    }
}

/// The notes a note depends on: the distinct `@ID`s of its task lines,
/// in order of appearance.
pub open spec fn todo_deps(content: Seq<char>) -> Seq<Seq<char>> {
    let ls = lines(content);
    deps_upto(ls, ls.len() as int)
}

/// Whether `id` is among `v`.
fn contains_str(v: &Vec<String>, id: &str) -> (r: bool)
    ensures
        r == names(v@).contains(id@),
{
    let ghost nm = names(v@);
    let mut k: usize = 0;
    while k < v.len()
        invariant
            k <= v.len(),
            nm == names(v@),
            forall|q: int| 0 <= q < k ==> nm[q] != id@,
        decreases v.len() - k,
    {
        assert(nm[k as int] == v@[k as int]@);
        if crate::text::str_eq(v[k].as_str(), id) {
            return true;
        }
        k += 1;
    }
    false
}

/// The notes a note depends on (`todo_deps`).
pub fn extract_todo_deps(content: &str) -> (r: Vec<String>)
    ensures
        names(r@) == todo_deps(content@),
{
    let cs = chars_of(content);
    let total = str_byte_len(content);
    let ls = split_lines(&cs);
    let ghost lv = lines(content@);
    let mut deps: Vec<String> = Vec::new();
    let mut i: usize = 0;
    assert(names(deps@) =~= deps_upto(lv, 0));
    while i < ls.len()
        invariant
            i <= ls.len(),
            views(ls@) == lv,
            lv == lines(content@),
            total == utf8_len(content@),
            names(deps@) == deps_upto(lv, i as int),
        decreases ls.len() - i,
    {
        let line = &ls[i];
        assert(line@ == lv[i as int]);
        proof {
            lemma_line_bytes(content@, i as int);
        }
        if todo_line(line) {
            let positions = scan_id_matches(line, '@', false);
            proof {
                lemma_id_matches_from_bounds(line@, 0, '@', false);
            }
            let ghost pos = positions@.map_values(|x: usize| x as int);
            let ghost ids = line_ids(line@);
            let ghost base = names(deps@);
            let mut k: usize = 0;
            while k < positions.len()
                invariant
                    k <= positions.len(),
                    pos == positions@.map_values(|x: usize| x as int),
                    pos == id_matches(line@, '@', false),
                    ids == line_ids(line@),
                    ids.len() == positions.len(),
                    forall|q: int| 0 <= q < pos.len() ==> crate::parser::id_match_at(line@, #[trigger] pos[q], '@', false),
                    names(deps@) == add_new(base, ids, k as int),
                decreases positions.len() - k,
            {
                let p = positions[k];
                assert(crate::parser::id_match_at(line@, pos[k as int], '@', false));
                assert(pos[k as int] == p as int);
                assert(p + 11 <= line@.len());
                assert(line@.len() == line.len());
                let id = crate::text::string_from_range(line, p + 1, p + 11);
                assert(id@ == ids[k as int]);
                if !contains_str(&deps, id.as_str()) {
                    let ghost before = names(deps@);
                    deps.push(id);
                    assert(names(deps@) =~= before.push(ids[k as int]));
                }
                k += 1;
            }
        }
        i += 1;
    }
    deps
}

// ---------------------------------------------------------------------------
// Dependency graph
// ---------------------------------------------------------------------------

/// The graph's nodes after taking the dependencies of `ks[..n]`: the notes
/// in order, then the dependencies that are not notes, in order of
/// appearance.
pub open spec fn dep_nodes_upto(ks: Seq<NoteSource>, n: int) -> Seq<Seq<char>>
    decreases n,
{
    if n <= 0 {
        ids_of(ks)
    } else {
        let d = todo_deps(ks[n - 1].content@);
        add_new(dep_nodes_upto(ks, n - 1), d, d.len() as int)
    }
}

pub open spec fn dep_nodes(ks: Seq<NoteSource>) -> Seq<Seq<char>> {
    dep_nodes_upto(ks, ks.len() as int)
}

/// The node indices of `deps`.
pub open spec fn dep_row(nodes: Seq<Seq<char>>, deps: Seq<Seq<char>>) -> Seq<usize> {
    deps.map_values(|d: Seq<char>| index_of(nodes, d, 0) as usize)
}

/// A note's row holds its dependencies; a node that is no note has none.
pub open spec fn dep_adj(ks: Seq<NoteSource>, nodes: Seq<Seq<char>>) -> Seq<Seq<usize>> {
    Seq::new(
        nodes.len(),
        |i: int|
            if i < ks.len() {
                dep_row(nodes, todo_deps(ks[i].content@))
            } else {
                seq![]
            },
    )
}

/// The dependency graph of the notes (each ID's first file): its nodes,
/// its rows, and which source each note node comes from.
fn build_dep_graph(notes: &[NoteSource]) -> (r: (Vec<usize>, Vec<String>, Vec<Vec<usize>>))
    ensures
        forall|q: int| 0 <= q < r.0.len() ==> #[trigger] r.0@[q] < notes.len(),
        kept(notes@) == picked(notes@, r.0@),
        names(r.1@) == dep_nodes(kept(notes@)),
        rows(r.2@) == dep_adj(kept(notes@), dep_nodes(kept(notes@))),
        r.0.len() <= r.1.len(),
{
    let (keep, ids) = kept_sources(notes);
    let ghost ks = kept(notes@);
    let mut deps: Vec<Vec<String>> = Vec::new();
    let mut nodes = ids;
    let mut q: usize = 0;
    while q < keep.len()
        invariant
            q <= keep.len(),
            keep.len() <= nodes.len(),
            forall|j: int| 0 <= j < keep.len() ==> #[trigger] keep@[j] < notes.len(),
            ks == picked(notes@, keep@),
            ks.len() == keep.len(),
            deps.len() == q,
            forall|j: int| 0 <= j < q ==> names(#[trigger] deps@[j]@) == todo_deps(ks[j].content@),
            names(nodes@) == dep_nodes_upto(ks, q as int),
        decreases keep.len() - q,
    {
        let d = extract_todo_deps(notes[keep[q]].content.as_str());
        assert(ks[q as int] == notes@[keep@[q as int] as int]);
        let ghost dn = names(d@);
        let ghost base = names(nodes@);
        let mut k: usize = 0;
        while k < d.len()
            invariant
                k <= d.len(),
                dn == names(d@),
                keep.len() <= nodes.len(),
                names(nodes@) == add_new(base, dn, k as int),
            decreases d.len() - k,
        {
            assert(dn[k as int] == d@[k as int]@);
            let i = index_of_exec(&nodes, d[k].as_str());
            if i == nodes.len() {
                let ghost before = names(nodes@);
                nodes.push(d[k].clone());
                assert(names(nodes@) =~= before.push(dn[k as int]));
            } else {
                assert(names(nodes@)[i as int] == dn[k as int]);
            }
            k += 1;
        }
        deps.push(d);
        q += 1;
    }
    let ghost nm = names(nodes@);
    assert(nm == dep_nodes(ks));
    let mut adj: Vec<Vec<usize>> = Vec::new();
    let mut i: usize = 0;
    while i < nodes.len()
        invariant
            i <= nodes.len(),
            nm == names(nodes@),
            nm == dep_nodes(ks),
            keep.len() == deps.len(),
            ks.len() == keep.len(),
            forall|j: int| 0 <= j < deps.len() ==> names(#[trigger] deps@[j]@) == todo_deps(ks[j].content@),
            rows(adj@) == dep_adj(ks, nm).take(i as int),
        decreases nodes.len() - i,
    {
        let mut row: Vec<usize> = Vec::new();
        if i < deps.len() {
            let d = &deps[i];
            let ghost dn = names(d@);
            assert(dn == todo_deps(ks[i as int].content@));
            let mut k: usize = 0;
            while k < d.len()
                invariant
                    k <= d.len(),
                    nm == names(nodes@),
                    dn == names(d@),
                    row@ == dep_row(nm, dn).take(k as int),
                decreases d.len() - k,
            {
                assert(dn[k as int] == d@[k as int]@);
                let x = index_of_exec(&nodes, d[k].as_str());
                row.push(x);
                assert(row@ =~= dep_row(nm, dn).take(k + 1));
                k += 1;
            }
            assert(row@ =~= dep_row(nm, dn));
        } else {
            assert(row@ =~= Seq::<usize>::empty());
        }
        let ghost before = rows(adj@);
        adj.push(row);
        assert(rows(adj@) =~= before.push(dep_adj(ks, nm)[i as int]));
        assert(rows(adj@) =~= dep_adj(ks, nm).take(i + 1));
        i += 1;
    }
    assert(rows(adj@) =~= dep_adj(ks, nm));
    (keep, nodes, adj)
}

// ---------------------------------------------------------------------------
// Component DAG and topological order
// ---------------------------------------------------------------------------

/// The last component among `sccs[..n]` that holds node `v`.
pub open spec fn scc_index_upto(sccs: Seq<Seq<usize>>, v: usize, n: int) -> Option<int>
    decreases n,
{
    if n <= 0 {
        None
    } else if sccs[n - 1].contains(v) {
        Some(n - 1)
    } else {
        scc_index_upto(sccs, v, n - 1)
    }
}

/// `acc` extended by the components of the nodes `nbrs[..k]`, other than
/// `i` and those it holds.
pub open spec fn add_targets(acc: Seq<usize>, sccs: Seq<Seq<usize>>, i: int, nbrs: Seq<usize>, k: int) -> Seq<usize>
    decreases k,
{
    if k <= 0 {
        acc
    } else {
        let prev = add_targets(acc, sccs, i, nbrs, k - 1);
        match scc_index_upto(sccs, nbrs[k - 1], sccs.len() as int) {
            Some(j) => if j != i && !prev.contains(j as usize) {
                prev.push(j as usize)
            } else {
                prev
            },
            None => prev,
        }
    }
}

/// The components that the first `m` nodes of component `i` depend on.
pub open spec fn dag_row_upto(adj: Seq<Seq<usize>>, sccs: Seq<Seq<usize>>, i: int, m: int) -> Seq<usize>
    decreases m,
{
    if m <= 0 {
        seq![]
    } else {
        let nb = succ(adj, sccs[i][m - 1] as int);
        add_targets(dag_row_upto(adj, sccs, i, m - 1), sccs, i, nb, nb.len() as int)
    }
}

/// The component DAG: row `i` lists the other components that component
/// `i` depends on, each once.
pub open spec fn scc_dag(adj: Seq<Seq<usize>>, sccs: Seq<Seq<usize>>) -> Seq<Seq<usize>> {
    Seq::new(sccs.len(), |i: int| dag_row_upto(adj, sccs, i, sccs[i].len() as int))
}

proof fn lemma_scc_index_bounds(sccs: Seq<Seq<usize>>, v: usize, n: int)
    requires
        0 <= n <= sccs.len(),
    ensures
        scc_index_upto(sccs, v, n) matches Some(j) ==> 0 <= j < n && sccs[j].contains(v),
        scc_index_upto(sccs, v, n) is None ==> forall|j: int| 0 <= j < n ==> !#[trigger] sccs[j].contains(v),
    decreases n,
{
    if n > 0 {
        lemma_scc_index_bounds(sccs, v, n - 1);
    }
}

/// Some node of component `c` has an edge to some node of component `d`.
pub open spec fn comp_edge(adj: Seq<Seq<usize>>, sccs: Seq<Seq<usize>>, c: int, d: int) -> bool {
    exists|x: usize, y: usize| #[trigger] sccs[c].contains(x) && #[trigger] sccs[d].contains(y) && succ(adj, x as int).contains(y)
}

/// A component that `add_targets` adds is another component, and holds
/// one of the neighbours.
proof fn lemma_add_targets_from(acc: Seq<usize>, sccs: Seq<Seq<usize>>, i: int, nbrs: Seq<usize>, k: int, d: usize)
    requires
        0 <= k <= nbrs.len(),
        sccs.len() <= usize::MAX,
        add_targets(acc, sccs, i, nbrs, k).contains(d),
    ensures
        acc.contains(d) || (d != i && d < sccs.len() && exists|t: int| 0 <= t < k && #[trigger] sccs[d as int].contains(nbrs[t])),
    decreases k,
{
    if k > 0 {
        let prev = add_targets(acc, sccs, i, nbrs, k - 1);
        lemma_scc_index_bounds(sccs, nbrs[k - 1], sccs.len() as int);
        match scc_index_upto(sccs, nbrs[k - 1], sccs.len() as int) {
            Some(j) => {
                if j != i && !prev.contains(j as usize) {
                    if prev.contains(d) {
                        lemma_add_targets_from(acc, sccs, i, nbrs, k - 1, d);
                    } else {
                        let cur = prev.push(j as usize);
                        let y = choose|y: int| 0 <= y < cur.len() && cur[y] == d;
                        if y < prev.len() {
                            assert(prev[y] == d);
                        }
                        assert(d as int == j);
                        assert(sccs[d as int].contains(nbrs[k - 1]));
                    }
                } else {
                    lemma_add_targets_from(acc, sccs, i, nbrs, k - 1, d);
                }
            },
            None => {
                lemma_add_targets_from(acc, sccs, i, nbrs, k - 1, d);
            },
        }
    }
}

proof fn lemma_dag_row_from(adj: Seq<Seq<usize>>, sccs: Seq<Seq<usize>>, i: int, m: int, d: usize)
    requires
        0 <= i < sccs.len(),
        0 <= m <= sccs[i].len(),
        sccs.len() <= usize::MAX,
        dag_row_upto(adj, sccs, i, m).contains(d),
    ensures
        d != i,
        d < sccs.len(),
        comp_edge(adj, sccs, i, d as int),
    decreases m,
{
    if m > 0 {
        let x = sccs[i][m - 1];
        let nb = succ(adj, x as int);
        let prev = dag_row_upto(adj, sccs, i, m - 1);
        lemma_add_targets_from(prev, sccs, i, nb, nb.len() as int, d);
        if prev.contains(d) {
            lemma_dag_row_from(adj, sccs, i, m - 1, d);
        } else {
            let t = choose|t: int| 0 <= t < nb.len() && #[trigger] sccs[d as int].contains(nb[t]);
            let y = nb[t];
            assert(sccs[i].contains(x));
            assert(nb.contains(y));
            assert(sccs[i].contains(x) && sccs[d as int].contains(y) && succ(adj, x as int).contains(y));
        }
    }
}

/// An edge of the component DAG joins two different components, and comes
/// from an edge between their nodes.
pub proof fn lemma_scc_dag_edge(adj: Seq<Seq<usize>>, sccs: Seq<Seq<usize>>, c: int, d: usize)
    requires
        0 <= c < sccs.len(),
        sccs.len() <= usize::MAX,
        scc_dag(adj, sccs)[c].contains(d),
    ensures
        d != c,
        d < sccs.len(),
        comp_edge(adj, sccs, c, d as int),
{
    lemma_dag_row_from(adj, sccs, c, sccs[c].len() as int, d);
}

/// The component DAG of a graph with `n` nodes.
fn build_scc_dag(adj: &Vec<Vec<usize>>, sccs: &Vec<Vec<usize>>, n: usize) -> (r: Vec<Vec<usize>>)
    requires
        forall|i: int, j: int| 0 <= i < sccs.len() && 0 <= j < sccs@[i].len() ==> #[trigger] sccs@[i]@[j] < n,
    ensures
        r.len() == sccs.len(),
        rows(r@) == scc_dag(rows(adj@), rows(sccs@)),
        forall|i: int| 0 <= i < r.len() ==> (#[trigger] r@[i]@).no_duplicates(),
        forall|i: int, j: int| 0 <= i < r.len() && 0 <= j < r@[i].len() ==> #[trigger] r@[i]@[j] < sccs.len(),
{
    let ghost sc = rows(sccs@);
    let ghost a = rows(adj@);
    let mut node_scc: Vec<Option<usize>> = Vec::new();
    let mut v: usize = 0;
    while v < n
        invariant
            v <= n,
            node_scc@ == Seq::new(v as nat, |x: int| None::<usize>),
        decreases n - v,
    {
        node_scc.push(None);
        assert(node_scc@ =~= Seq::new((v + 1) as nat, |x: int| None::<usize>));
        v += 1;
    }
    let mut i: usize = 0;
    while i < sccs.len()
        invariant
            i <= sccs.len(),
            sc == rows(sccs@),
            node_scc.len() == n,
            forall|x: int, y: int| 0 <= x < sccs.len() && 0 <= y < sccs@[x].len() ==> #[trigger] sccs@[x]@[y] < n,
            forall|x: int|
                0 <= x < n ==> (match #[trigger] node_scc@[x] {
                    Some(j) => scc_index_upto(sc, x as usize, i as int) == Some(j as int),
                    None => scc_index_upto(sc, x as usize, i as int) is None,
                }),
        decreases sccs.len() - i,
    {
        let scc = &sccs[i];
        assert(sc[i as int] == scc@);
        let mut m: usize = 0;
        while m < scc.len()
            invariant
                m <= scc.len(),
                sc == rows(sccs@),
                sc[i as int] == scc@,
                i < sccs.len(),
                node_scc.len() == n,
                forall|y: int| 0 <= y < scc.len() ==> #[trigger] scc@[y] < n,
                forall|x: int|
                    0 <= x < n ==> (match #[trigger] node_scc@[x] {
                        Some(j) => if scc@.take(m as int).contains(x as usize) {
                            j == i
                        } else {
                            scc_index_upto(sc, x as usize, i as int) == Some(j as int)
                        },
                        None => !scc@.take(m as int).contains(x as usize) && scc_index_upto(sc, x as usize, i as int) is None,
                    }),
            decreases scc.len() - m,
        {
            assert(scc@[m as int] == sccs@[i as int]@[m as int]);
            let w = scc[m];
            node_scc.set(w, Some(i));
            proof {
                assert forall|x: int| 0 <= x < n implies (match #[trigger] node_scc@[x] {
                    Some(j) => if scc@.take(m + 1).contains(x as usize) {
                        j == i
                    } else {
                        scc_index_upto(sc, x as usize, i as int) == Some(j as int)
                    },
                    None => !scc@.take(m + 1).contains(x as usize) && scc_index_upto(sc, x as usize, i as int) is None,
                }) by {
                    assert(scc@.take(m + 1) =~= scc@.take(m as int).push(w));
                    if x != w as int {
                        assert(scc@.take(m + 1).contains(x as usize) == scc@.take(m as int).contains(x as usize));
                    } else {
                        assert(scc@.take(m + 1)[m as int] == w);
                    }
                }
            }
            m += 1;
        }
        proof {
            assert(scc@.take(scc.len() as int) =~= scc@);
        }
        i += 1;
    }
    let mut dag: Vec<Vec<usize>> = Vec::new();
    let mut i: usize = 0;
    while i < sccs.len()
        invariant
            i <= sccs.len(),
            sc == rows(sccs@),
            a == rows(adj@),
            node_scc.len() == n,
            forall|x: int, y: int| 0 <= x < sccs.len() && 0 <= y < sccs@[x].len() ==> #[trigger] sccs@[x]@[y] < n,
            forall|x: int|
                0 <= x < n ==> (match #[trigger] node_scc@[x] {
                    Some(j) => scc_index_upto(sc, x as usize, sc.len() as int) == Some(j as int),
                    None => scc_index_upto(sc, x as usize, sc.len() as int) is None,
                }),
            rows(dag@) == scc_dag(a, sc).take(i as int),
            forall|x: int| 0 <= x < dag.len() ==> (#[trigger] dag@[x]@).no_duplicates(),
            forall|x: int, y: int| 0 <= x < dag.len() && 0 <= y < dag@[x].len() ==> #[trigger] dag@[x]@[y] < sccs.len(),
        decreases sccs.len() - i,
    {
        let scc = &sccs[i];
        assert(sc[i as int] == scc@);
        let mut row: Vec<usize> = Vec::new();
        let mut m: usize = 0;
        while m < scc.len()
            invariant
                m <= scc.len(),
                i < sccs.len(),
                sc == rows(sccs@),
                a == rows(adj@),
                sc[i as int] == scc@,
                node_scc.len() == n,
                forall|x: int, y: int| 0 <= x < sccs.len() && 0 <= y < sccs@[x].len() ==> #[trigger] sccs@[x]@[y] < n,
                forall|x: int|
                    0 <= x < n ==> (match #[trigger] node_scc@[x] {
                        Some(j) => scc_index_upto(sc, x as usize, sc.len() as int) == Some(j as int),
                        None => scc_index_upto(sc, x as usize, sc.len() as int) is None,
                    }),
                row@ == dag_row_upto(a, sc, i as int, m as int),
                row@.no_duplicates(),
                forall|y: int| 0 <= y < row.len() ==> #[trigger] row@[y] < sccs.len(),
            decreases scc.len() - m,
        {
            let v = scc[m];
            assert(sc[i as int][m as int] == v);
            let ghost nb = succ(a, v as int);
            let ghost base = row@;
            if v < adj.len() {
                let nbrs = &adj[v];
                assert(nb == nbrs@);
                let mut k: usize = 0;
                while k < nbrs.len()
                    invariant
                        k <= nbrs.len(),
                        i < sccs.len(),
                        sc == rows(sccs@),
                        nb == nbrs@,
                        node_scc.len() == n,
                        forall|x: int, y: int| 0 <= x < sccs.len() && 0 <= y < sccs@[x].len() ==> #[trigger] sccs@[x]@[y] < n,
                        forall|x: int|
                            0 <= x < n ==> (match #[trigger] node_scc@[x] {
                                Some(j) => scc_index_upto(sc, x as usize, sc.len() as int) == Some(j as int),
                                None => scc_index_upto(sc, x as usize, sc.len() as int) is None,
                            }),
                        row@ == add_targets(base, sc, i as int, nb, k as int),
                        row@.no_duplicates(),
                        forall|y: int| 0 <= y < row.len() ==> #[trigger] row@[y] < sccs.len(),
                    decreases nbrs.len() - k,
                {
                    let w = nbrs[k];
                    let target = if w < n {
                        node_scc[w]
                    } else {
                        proof {
                            lemma_scc_index_bounds(sc, w, sc.len() as int);
                            if scc_index_upto(sc, w, sc.len() as int) is Some {
                                let j = scc_index_upto(sc, w, sc.len() as int)->0;
                                let y = choose|y: int| 0 <= y < sc[j].len() && sc[j][y] == w;
                                assert(sccs@[j]@[y] == w);
                            }
                        }
                        None
                    };
                    proof {
                        lemma_scc_index_bounds(sc, w, sc.len() as int);
                    }
                    match target {
                        Some(j) => {
                            if j != i && !contains_usize(&row, j) {
                                row.push(j);
                            }
                        },
                        None => {},
                    }
                    k += 1;
                }
            } else {
                assert(nb =~= Seq::<usize>::empty());
            }
            m += 1;
        }
        let ghost before = rows(dag@);
        dag.push(row);
        assert(rows(dag@) =~= before.push(scc_dag(a, sc)[i as int]));
        assert(rows(dag@) =~= scc_dag(a, sc).take(i + 1));
        i += 1;
    }
    assert(rows(dag@) =~= scc_dag(a, sc));
    dag
}

/// Counts one in-edge for each of `row[..k]`.
pub open spec fn bump(deg: Seq<int>, row: Seq<usize>, k: int) -> Seq<int>
    decreases k,
{
    if k <= 0 {
        deg
    } else {
        let d = bump(deg, row, k - 1);
        let j = row[k - 1] as int;
        if j < d.len() {
            d.update(j, d[j] + 1)
        } else {
            d
        }
    }
}

/// The in-degrees of `n` components after counting the rows `dag[..r]`.
pub open spec fn in_degrees(dag: Seq<Seq<usize>>, n: nat, r: int) -> Seq<int>
    decreases r,
{
    if r <= 0 {
        Seq::new(n, |i: int| 0int)
    } else {
        bump(in_degrees(dag, n, r - 1), dag[r - 1], dag[r - 1].len() as int)
    }
}

/// The state of Kahn's algorithm: in-degrees, the queue, the order so far.
pub struct KahnState {
    pub deg: Seq<int>,
    pub queue: Seq<usize>,
    pub order: Seq<usize>,
}

/// Removes the edges to `row[..k]`, queueing each component whose
/// in-degree drops to zero.
pub open spec fn relax(st: KahnState, row: Seq<usize>, k: int) -> KahnState
    decreases k,
{
    if k <= 0 {
        st
    } else {
        let s = relax(st, row, k - 1);
        let j = row[k - 1] as int;
        if j < s.deg.len() && s.deg[j] > 0 {
            let d = s.deg[j] - 1;
            KahnState {
                deg: s.deg.update(j, d),
                queue: if d == 0 {
                    s.queue.push(j as usize)
                } else {
                    s.queue
                },
                ..s
            }
        } else {
            s
        }
    }
}

/// Takes components off the front of the queue, at most `fuel` times.
pub open spec fn kahn(dag: Seq<Seq<usize>>, st: KahnState, fuel: nat) -> KahnState
    decreases fuel,
{
    if fuel == 0 || st.queue.len() == 0 {
        st
    } else {
        let i = st.queue[0];
        let s1 = KahnState { queue: st.queue.drop_first(), order: st.order.push(i), ..st };
        let row = succ(dag, i as int);
        kahn(dag, relax(s1, row, row.len() as int), (fuel - 1) as nat)
    }
}

/// The components among `0..i` with in-degree zero, in order.
pub open spec fn sources_upto(deg: Seq<int>, i: int) -> Seq<usize>
    decreases i,
{
    if i <= 0 {
        seq![]
    } else if deg[i - 1] == 0 {
        sources_upto(deg, i - 1).push((i - 1) as usize)
    } else {
        sources_upto(deg, i - 1)
    }
}

/// `order` extended by each of `0..i` it lacks.
pub open spec fn append_missing(order: Seq<usize>, i: int) -> Seq<usize>
    decreases i,
{
    if i <= 0 {
        order
    } else {
        let prev = append_missing(order, i - 1);
        if prev.contains((i - 1) as usize) {
            prev
        } else {
            prev.push((i - 1) as usize)
        }
    }
}

/// Kahn's algorithm on the component DAG of `n` components (sources in
/// index order), followed by any component it left out; `solve_order`
/// keeps it where it is a topological order.
pub open spec fn topo_order(dag: Seq<Seq<usize>>, n: nat) -> Seq<usize> {
    let deg = in_degrees(dag, n, dag.len() as int);
    let st = kahn(dag, KahnState { deg, queue: sources_upto(deg, n as int), order: seq![] }, n);
    append_missing(st.order, n as int)
}

proof fn lemma_bump_len(deg: Seq<int>, row: Seq<usize>, k: int)
    requires
        0 <= k <= row.len(),
    ensures
        bump(deg, row, k).len() == deg.len(),
    decreases k,
{
    if k > 0 {
        lemma_bump_len(deg, row, k - 1);
    }
}

/// On a row without duplicates, counting adds one to each entry's degree.
proof fn lemma_bump(deg: Seq<int>, row: Seq<usize>, k: int, j: int)
    requires
        0 <= k <= row.len(),
        row.no_duplicates(),
        0 <= j < deg.len(),
        j <= usize::MAX,
    ensures
        bump(deg, row, k)[j] == deg[j] + if row.take(k).contains(j as usize) {
            1int
        } else {
            0int
        },
    decreases k,
{
    if k == 0 {
        assert(row.take(0) =~= Seq::<usize>::empty());
    } else {
        lemma_bump(deg, row, k - 1, j);
        lemma_bump_len(deg, row, k - 1);
        let t = row.take(k);
        let t1 = row.take(k - 1);
        assert(t =~= t1.push(row[k - 1]));
        if row[k - 1] as int == j {
            if t1.contains(j as usize) {
                let y = choose|y: int| 0 <= y < t1.len() && #[trigger] t1[y] == j as usize;
                assert(row[y] == row[k - 1]);
            }
            assert(t[k - 1] == row[k - 1]);
        } else {
            if t.contains(j as usize) {
                let y = choose|y: int| 0 <= y < t.len() && #[trigger] t[y] == j as usize;
                assert(y != k - 1);
                assert(t1[y] == t[y]);
            }
            if t1.contains(j as usize) {
                let y = choose|y: int| 0 <= y < t1.len() && #[trigger] t1[y] == j as usize;
                assert(t[y] == t1[y]);
            }
        }
    }
}

/// Each degree is at most the number of rows counted.
proof fn lemma_in_degrees(dag: Seq<Seq<usize>>, n: nat, r: int)
    requires
        0 <= r <= dag.len(),
        n <= usize::MAX,
        forall|i: int| 0 <= i < dag.len() ==> (#[trigger] dag[i]).no_duplicates(),
    ensures
        in_degrees(dag, n, r).len() == n,
        forall|j: int| 0 <= j < n ==> 0 <= #[trigger] in_degrees(dag, n, r)[j] <= r,
    decreases r,
{
    if r > 0 {
        lemma_in_degrees(dag, n, r - 1);
        lemma_bump_len(in_degrees(dag, n, r - 1), dag[r - 1], dag[r - 1].len() as int);
        let d = in_degrees(dag, n, r - 1);
        let row = dag[r - 1];
        assert(row.take(row.len() as int) =~= row);
        assert forall|j: int| 0 <= j < n implies 0 <= #[trigger] in_degrees(dag, n, r)[j] <= r by {
            lemma_bump(d, row, row.len() as int, j);
        }
        lemma_bump_len(d, row, row.len() as int);
    }
}

/// Kahn's order of the `n` components of `dag` (`topo_order`).
fn build_topo_order(dag: &Vec<Vec<usize>>, n: usize) -> (r: Vec<usize>)
    requires
        dag.len() == n,
        forall|i: int| 0 <= i < dag.len() ==> (#[trigger] dag@[i]@).no_duplicates(),
    ensures
        r@ == topo_order(rows(dag@), n as nat),
{
    let ghost g = rows(dag@);
    proof {
        assert forall|i: int| 0 <= i < g.len() implies (#[trigger] g[i]).no_duplicates() by {
            assert(g[i] == dag@[i]@);
        }
        lemma_in_degrees(g, n as nat, g.len() as int);
    }
    let mut deg: Vec<usize> = Vec::new();
    let mut v: usize = 0;
    while v < n
        invariant
            v <= n,
            deg.len() == v,
            forall|i: int| 0 <= i < v ==> deg@[i] == 0,
        decreases n - v,
    {
        deg.push(0);
        v += 1;
    }
    assert(deg@.map_values(|x: usize| x as int) =~= in_degrees(g, n as nat, 0));
    let mut r: usize = 0;
    while r < dag.len()
        invariant
            r <= dag.len(),
            dag.len() == n,
            g == rows(dag@),
            forall|i: int| 0 <= i < g.len() ==> (#[trigger] g[i]).no_duplicates(),
            deg@.map_values(|x: usize| x as int) == in_degrees(g, n as nat, r as int),
        decreases dag.len() - r,
    {
        let row = &dag[r];
        assert(g[r as int] == row@);
        proof {
            lemma_in_degrees(g, n as nat, r as int);
        }
        let ghost d0 = in_degrees(g, n as nat, r as int);
        let mut k: usize = 0;
        while k < row.len()
            invariant
                k <= row.len(),
                r < dag.len(),
                g[r as int] == row@,
                row@.no_duplicates(),
                d0.len() == n,
                forall|j: int| 0 <= j < n ==> 0 <= #[trigger] d0[j] <= r,
                deg@.map_values(|x: usize| x as int) == bump(d0, row@, k as int),
            decreases row.len() - k,
        {
            let j = row[k];
            proof {
                lemma_bump_len(d0, row@, k as int);
            }
            if j < deg.len() {
                proof {
                    lemma_bump(d0, row@, k as int, j as int);
                    assert(deg@[j as int] as int == bump(d0, row@, k as int)[j as int]);
                }
                let x = deg[j] + 1;
                let ghost before = deg@.map_values(|x: usize| x as int);
                deg.set(j, x);
                assert(deg@.map_values(|x: usize| x as int) =~= before.update(j as int, before[j as int] + 1));
            }
            k += 1;
        }
        assert(row@.take(row.len() as int) =~= row@);
        r += 1;
    }
    let ghost deg0 = in_degrees(g, n as nat, g.len() as int);
    let mut queue: Vec<usize> = Vec::new();
    let mut i: usize = 0;
    while i < n
        invariant
            i <= n,
            deg.len() == n,
            deg@.map_values(|x: usize| x as int) == deg0,
            queue@ == sources_upto(deg0, i as int),
        decreases n - i,
    {
        assert(deg0[i as int] == deg@[i as int] as int);
        if deg[i] == 0 {
            queue.push(i);
        }
        i += 1;
    }
    let ghost target = kahn(g, KahnState { deg: deg0, queue: queue@, order: seq![] }, n as nat);
    let mut order: Vec<usize> = Vec::new();
    let mut head: usize = 0;
    let mut fuel: usize = n;
    assert(queue@.skip(0) =~= queue@);
    assert(order@ =~= Seq::<usize>::empty());
    loop
        invariant
            head <= queue.len(),
            deg.len() == n,
            g == rows(dag@),
            dag.len() == n,
            target == kahn(
                g,
                (KahnState { deg: deg@.map_values(|x: usize| x as int), queue: queue@.skip(head as int), order: order@ }),
                fuel as nat,
            ),
        ensures
            target == (KahnState { deg: deg@.map_values(|x: usize| x as int), queue: queue@.skip(head as int), order: order@ }),
        decreases fuel,
    {
        if fuel == 0 || head >= queue.len() {
            break;
        }
        let c = queue[head];
        let ghost st = KahnState { deg: deg@.map_values(|x: usize| x as int), queue: queue@.skip(head as int), order: order@ };
        assert(st.queue[0] == c);
        head += 1;
        order.push(c);
        let ghost s1 = KahnState { queue: st.queue.drop_first(), order: st.order.push(c), ..st };
        assert(queue@.skip(head as int) =~= st.queue.drop_first());
        let ghost row_s = succ(g, c as int);
        if c < dag.len() {
            let row = &dag[c];
            assert(row_s == row@);
            let mut k: usize = 0;
            while k < row.len()
                invariant
                    k <= row.len(),
                    head <= queue.len(),
                    deg.len() == n,
                    row_s == row@,
                    relax(s1, row_s, k as int) == (KahnState {
                        deg: deg@.map_values(|x: usize| x as int),
                        queue: queue@.skip(head as int),
                        order: order@,
                    }),
                decreases row.len() - k,
            {
                let j = row[k];
                let ghost sb = KahnState { deg: deg@.map_values(|x: usize| x as int), queue: queue@.skip(head as int), order: order@ };
                if j < deg.len() && deg[j] > 0 {
                    let d = deg[j] - 1;
                    deg.set(j, d);
                    if d == 0 {
                        queue.push(j);
                    }
                    assert(deg@.map_values(|x: usize| x as int) =~= sb.deg.update(j as int, d as int));
                    assert(queue@.skip(head as int) =~= if d == 0 { sb.queue.push(j) } else { sb.queue });
                }
                k += 1;
            }
        } else {
            assert(row_s =~= Seq::<usize>::empty());
        }
        fuel -= 1;
    }
    let ghost before = order@;
    let mut i: usize = 0;
    while i < n
        invariant
            i <= n,
            order@ == append_missing(before, i as int),
        decreases n - i,
    {
        if !contains_usize(&order, i) {
            order.push(i);
        }
        i += 1;
    }
    order
}

// ---------------------------------------------------------------------------
// Fixed-point solver
// ---------------------------------------------------------------------------

/// `g` with `ids[p]` set to `vals[p]` for each `p < k`, in order.
pub open spec fn overlay(g: Map<Seq<char>, bool>, ids: Seq<Seq<char>>, vals: Seq<bool>, k: int) -> Map<
    Seq<char>,
    bool,
>
    decreases k,
{
    if k <= 0 {
        g
    } else {
        overlay(g, ids, vals, k - 1).insert(ids[k - 1], vals[k - 1])
    }
}

/// The IDs of a component's nodes.
pub open spec fn component_ids(nodes: Seq<Seq<char>>, scc: Seq<usize>) -> Seq<Seq<char>> {
    scc.map_values(|v: usize| nodes[v as int])
}

/// Node `v`'s done state under `m`: its note's, or not done for a node
/// that is no note.
pub open spec fn node_value(ks: Seq<NoteSource>, v: usize, m: Map<Seq<char>, bool>) -> bool {
    if (v as int) < ks.len() {
        node_done(ks[v as int].content@, m)
    } else {
        false
    }
}

/// One round over a component: each node's done state under `m`.
pub open spec fn round_values(ks: Seq<NoteSource>, scc: Seq<usize>, m: Map<Seq<char>, bool>) -> Seq<bool> {
    Seq::new(scc.len(), |p: int| node_value(ks, scc[p], m))
}

/// Rounds over a component, at most `rounds` more: each round evaluates
/// the nodes under the states so far (`g`) with the component's current
/// values `cur` over them, and stops when nothing changes.
pub open spec fn iterate(
    ks: Seq<NoteSource>,
    nodes: Seq<Seq<char>>,
    scc: Seq<usize>,
    g: Map<Seq<char>, bool>,
    cur: Seq<bool>,
    rounds: nat,
) -> Seq<bool>
    decreases rounds,
{
    if rounds == 0 {
        cur
    } else {
        let nv = round_values(ks, scc, overlay(g, component_ids(nodes, scc), cur, scc.len() as int));
        if nv == cur {
            cur
        } else {
            iterate(ks, nodes, scc, g, nv, (rounds - 1) as nat)
        }
    }
}

/// The most rounds a component is iterated.
pub const MAX_SCC_ROUNDS: usize = 100;

/// A component's done states, iterated from "not done" given the states
/// `g` of the components solved before it.
pub open spec fn solve_component(ks: Seq<NoteSource>, nodes: Seq<Seq<char>>, scc: Seq<usize>, g: Map<Seq<char>, bool>) -> Seq<
    bool,
> {
    iterate(ks, nodes, scc, g, Seq::new(scc.len(), |p: int| false), MAX_SCC_ROUNDS as nat)
}

/// The done states after solving the components `order[len - k..]` in
/// reverse order: dependencies first.
pub open spec fn solve_upto(
    ks: Seq<NoteSource>,
    nodes: Seq<Seq<char>>,
    sccs: Seq<Seq<usize>>,
    order: Seq<usize>,
    k: int,
) -> Map<Seq<char>, bool>
    decreases k,
{
    if k <= 0 || k > order.len() {
        Map::empty()
    } else {
        let g = solve_upto(ks, nodes, sccs, order, k - 1);
        let c = order[order.len() - k] as int;
        if c < sccs.len() {
            let scc = sccs[c];
            overlay(g, component_ids(nodes, scc), solve_component(ks, nodes, scc, g), scc.len() as int)
        } else {
            g
        }
    }
}

/// The done state of every note and dependency of a workspace.
pub open spec fn solved(srcs: Seq<NoteSource>) -> Map<Seq<char>, bool> {
    let ks = kept(srcs);
    let nodes = dep_nodes(ks);
    let adj = dep_adj(ks, nodes);
    let sccs = sccs_of(nodes, adj);
    let order = solve_order(adj, nodes.len(), sccs);
    solve_upto(ks, nodes, sccs, order, order.len() as int)
}

/// Outside `ids[..k]`, an overlay keeps `g`.
proof fn lemma_overlay_outside(g: Map<Seq<char>, bool>, ids: Seq<Seq<char>>, vals: Seq<bool>, k: int, key: Seq<char>)
    requires
        0 <= k <= ids.len(),
        !ids.take(k).contains(key),
    ensures
        overlay(g, ids, vals, k).contains_key(key) == g.contains_key(key),
        overlay(g, ids, vals, k)[key] == g[key],
    decreases k,
{
    if k > 0 {
        assert(ids.take(k)[k - 1] == ids[k - 1]);
        assert(ids.take(k - 1) =~= ids.take(k).take(k - 1));
        if ids.take(k - 1).contains(key) {
            let y = choose|y: int| 0 <= y < k - 1 && #[trigger] ids.take(k - 1)[y] == key;
            assert(ids.take(k)[y] == key);
        }
        lemma_overlay_outside(g, ids, vals, k - 1, key);
    }
}

/// Inside `ids[..k]`, an overlay does not depend on the map under it.
proof fn lemma_overlay_inside(
    g1: Map<Seq<char>, bool>,
    g2: Map<Seq<char>, bool>,
    ids: Seq<Seq<char>>,
    vals: Seq<bool>,
    k: int,
    key: Seq<char>,
)
    requires
        0 <= k <= ids.len(),
        ids.take(k).contains(key),
    ensures
        overlay(g1, ids, vals, k).contains_key(key),
        overlay(g2, ids, vals, k).contains_key(key),
        overlay(g1, ids, vals, k)[key] == overlay(g2, ids, vals, k)[key],
    decreases k,
{
    if ids[k - 1] != key {
        let y = choose|y: int| 0 <= y < k && #[trigger] ids.take(k)[y] == key;
        assert(y != k - 1);
        assert(ids.take(k - 1)[y] == key);
        lemma_overlay_inside(g1, g2, ids, vals, k - 1, key);
    }
}

/// Overlaying twice over the same IDs keeps the second values.
proof fn lemma_overlay_twice(g: Map<Seq<char>, bool>, ids: Seq<Seq<char>>, a: Seq<bool>, b: Seq<bool>, n: int)
    requires
        0 <= n <= ids.len(),
    ensures
        overlay(overlay(g, ids, a, n), ids, b, n) == overlay(g, ids, b, n),
{
    let lhs = overlay(overlay(g, ids, a, n), ids, b, n);
    let rhs = overlay(g, ids, b, n);
    assert forall|key: Seq<char>| #[trigger] lhs.contains_key(key) == rhs.contains_key(key) && (lhs.contains_key(key) ==> lhs[key] == rhs[key]) by {
        if ids.take(n).contains(key) {
            lemma_overlay_inside(overlay(g, ids, a, n), g, ids, b, n, key);
        } else {
            lemma_overlay_outside(overlay(g, ids, a, n), ids, b, n, key);
            lemma_overlay_outside(g, ids, a, n, key);
            lemma_overlay_outside(g, ids, b, n, key);
        }
    }
    assert(lhs =~= rhs);
}

/// Solves one component over the states `m` of the components solved
/// before it, and adds its states to `m`.
fn solve_scc(
    notes: &[NoteSource],
    keep: &Vec<usize>,
    nodes: &Vec<String>,
    scc: &Vec<usize>,
    m: &mut StringHashMap<bool>,
)
    requires
        forall|q: int| 0 <= q < keep.len() ==> #[trigger] keep@[q] < notes.len(),
        forall|p: int| 0 <= p < scc.len() ==> #[trigger] scc@[p] < nodes.len(),
    ensures
        final(m)@ == overlay(
            old(m)@,
            component_ids(names(nodes@), scc@),
            solve_component(picked(notes@, keep@), names(nodes@), scc@, old(m)@),
            scc.len() as int,
        ),
{
    let ghost g = m@;
    let ghost ks = picked(notes@, keep@);
    let ghost nm = names(nodes@);
    let ghost ids = component_ids(nm, scc@);
    let n = scc.len();
    let mut cur: Vec<bool> = Vec::new();
    let mut p: usize = 0;
    while p < n
        invariant
            p <= n,
            n == scc.len(),
            forall|x: int| 0 <= x < scc.len() ==> #[trigger] scc@[x] < nodes.len(),
            nm == names(nodes@),
            ids == component_ids(nm, scc@),
            cur@ == Seq::new(p as nat, |x: int| false),
            m@ == overlay(g, ids, cur@, p as int),
        decreases n - p,
    {
        let v = scc[p];
        assert(ids[p as int] == nodes@[v as int]@);
        let ghost old_cur = cur@;
        m.insert(nodes[v].clone(), false);
        cur.push(false);
        assert(cur@ =~= Seq::new((p + 1) as nat, |x: int| false));
        proof {
            lemma_overlay_prefix(g, ids, cur@, old_cur, p as int);
        }
        p += 1;
    }
    let ghost target = solve_component(ks, nm, scc@, g);
    let mut rounds: usize = MAX_SCC_ROUNDS;
    loop
        invariant
            n == scc.len(),
            cur.len() == n,
            forall|q: int| 0 <= q < keep.len() ==> #[trigger] keep@[q] < notes.len(),
            forall|x: int| 0 <= x < scc.len() ==> #[trigger] scc@[x] < nodes.len(),
            ks == picked(notes@, keep@),
            nm == names(nodes@),
            ids == component_ids(nm, scc@),
            m@ == overlay(g, ids, cur@, n as int),
            target == iterate(ks, nm, scc@, g, cur@, rounds as nat),
        ensures
            m@ == overlay(g, ids, cur@, n as int),
            target == cur@,
        decreases rounds,
    {
        if rounds == 0 {
            break;
        }
        let mut nv: Vec<bool> = Vec::new();
        let mut p: usize = 0;
        while p < n
            invariant
                p <= n,
                n == scc.len(),
                forall|q: int| 0 <= q < keep.len() ==> #[trigger] keep@[q] < notes.len(),
                ks == picked(notes@, keep@),
                nv@ == round_values(ks, scc@, m@).take(p as int),
            decreases n - p,
        {
            let v = scc[p];
            let b = if v < keep.len() {
                assert(ks[v as int] == notes@[keep@[v as int] as int]);
                compute_node_done(notes[keep[v]].content.as_str(), m)
            } else {
                false
            };
            nv.push(b);
            assert(nv@ =~= round_values(ks, scc@, m@).take(p + 1));
            p += 1;
        }
        assert(nv@ =~= round_values(ks, scc@, m@));
        let mut same = true;
        let mut q: usize = 0;
        assert(nv@.take(0) =~= cur@.take(0));
        while q < n
            invariant
                q <= n,
                nv.len() == n,
                cur.len() == n,
                same == (nv@.take(q as int) == cur@.take(q as int)),
            decreases n - q,
        {
            assert(nv@.take(q + 1) =~= nv@.take(q as int).push(nv@[q as int]));
            assert(cur@.take(q + 1) =~= cur@.take(q as int).push(cur@[q as int]));
            if nv[q] != cur[q] {
                same = false;
                assert(nv@.take(q + 1)[q as int] != cur@.take(q + 1)[q as int]);
            } else if same {
                assert(nv@.take(q + 1) =~= cur@.take(q + 1));
            } else {
                assert(nv@.take(q + 1) != cur@.take(q + 1)) by {
                    if nv@.take(q + 1) == cur@.take(q + 1) {
                        assert(nv@.take(q as int) =~= nv@.take(q + 1).take(q as int));
                        assert(cur@.take(q as int) =~= cur@.take(q + 1).take(q as int));
                    }
                }
            }
            q += 1;
        }
        assert(nv@.take(n as int) =~= nv@);
        assert(cur@.take(n as int) =~= cur@);
        if same {
            break;
        }
        let mut p: usize = 0;
        let ghost m0 = m@;
        while p < n
            invariant
                p <= n,
                n == scc.len(),
                nv.len() == n,
                forall|x: int| 0 <= x < scc.len() ==> #[trigger] scc@[x] < nodes.len(),
                nm == names(nodes@),
                ids == component_ids(nm, scc@),
                m@ == overlay(m0, ids, nv@, p as int),
            decreases n - p,
        {
            let v = scc[p];
            assert(ids[p as int] == nodes@[v as int]@);
            m.insert(nodes[v].clone(), nv[p]);
            p += 1;
        }
        proof {
            lemma_overlay_twice(g, ids, cur@, nv@, n as int);
        }
        cur = nv;
        rounds -= 1;
    }
    proof {
        assert(target == solve_component(ks, nm, scc@, g));
    }
}

/// Overlays agree on the first `k` values.
proof fn lemma_overlay_prefix(g: Map<Seq<char>, bool>, ids: Seq<Seq<char>>, a: Seq<bool>, b: Seq<bool>, k: int)
    requires
        0 <= k <= a.len(),
        k <= b.len(),
        forall|i: int| 0 <= i < k ==> a[i] == b[i],
    ensures
        overlay(g, ids, a, k) == overlay(g, ids, b, k),
    decreases k,
{
    if k > 0 {
        lemma_overlay_prefix(g, ids, a, b, k - 1);
    }
}

/// The done state of every note and dependency of a workspace: the
/// dependency graph's components are solved in topological order,
/// dependencies first, each iterated to a fixed point (at most
/// `MAX_SCC_ROUNDS` rounds) from "not done".
pub fn solve_global(notes: &[NoteSource]) -> (r: StringHashMap<bool>)
    ensures
        r@ == solved(notes@),
{
    let (keep, nodes, adj) = build_dep_graph(notes);
    let ghost ks = kept(notes@);
    let ghost nm = names(nodes@);
    let ghost a = rows(adj@);
    let sccs = strong_components(&nodes, &adj);
    let ghost sc = rows(sccs@);
    let dag = build_scc_dag(&adj, &sccs, nodes.len());
    let kahn_order = build_topo_order(&dag, sccs.len());
    let order = confirm_order(kahn_order, &dag, &adj, &sccs, nodes.len());
    let mut m = StringHashMap::<bool>::new();
    let mut k: usize = 0;
    while k < order.len()
        invariant
            k <= order.len(),
            forall|q: int| 0 <= q < keep.len() ==> #[trigger] keep@[q] < notes.len(),
            forall|i: int, j: int| 0 <= i < sccs.len() && 0 <= j < sccs@[i].len() ==> #[trigger] sccs@[i]@[j] < nodes.len(),
            ks == picked(notes@, keep@),
            nm == names(nodes@),
            sc == rows(sccs@),
            m@ == solve_upto(ks, nm, sc, order@, k as int),
        decreases order.len() - k,
    {
        let c = order[order.len() - 1 - k];
        if c < sccs.len() {
            assert(sc[c as int] == sccs@[c as int]@);
            assert forall|p: int| 0 <= p < sccs@[c as int].len() implies #[trigger] sccs@[c as int]@[p] < nodes.len() by {
                assert(sccs@[c as int]@[p] == sccs@[c as int]@[p]);
            }
            solve_scc(notes, &keep, &nodes, &sccs[c], &mut m);
        }
        k += 1;
    }
    m
}

// ---------------------------------------------------------------------------
// Rewrite rounds
// ---------------------------------------------------------------------------

/// The dependency states a note is normalized with: each dependency's
/// solved state, not done where it has none.
pub open spec fn dep_states_of(deps: Seq<Seq<char>>, g: Map<Seq<char>, bool>) -> Map<Seq<char>, bool> {
    Map::new(|k: Seq<char>| deps.contains(k), |k: Seq<char>| g.contains_key(k) && g[k])
}

/// A note's content after a round under the solved states `g`.
pub open spec fn rewritten(content: Seq<char>, g: Map<Seq<char>, bool>) -> Seq<char> {
    nested(ref_sync(content, dep_states_of(todo_deps(content), g)))
}

/// The dependency states of `deps` under the solved states `global`.
pub fn dep_states_for(deps: &Vec<String>, global: &StringHashMap<bool>) -> (r: StringHashMap<bool>)
    ensures
        r@ == dep_states_of(names(deps@), global@),
{
    let ghost dn = names(deps@);
    let mut m = StringHashMap::<bool>::new();
    let mut k: usize = 0;
    assert(m@ =~= dep_states_of(dn.take(0), global@));
    while k < deps.len()
        invariant
            k <= deps.len(),
            dn == names(deps@),
            m@ == dep_states_of(dn.take(k as int), global@),
        decreases deps.len() - k,
    {
        let done = match global.get(deps[k].as_str()) {
            Some(b) => *b,
            None => false,
        };
        m.insert(deps[k].clone(), done);
        assert(dn[k as int] == deps@[k as int]@);
        let ghost t0 = dn.take(k as int);
        let ghost t1 = dn.take(k + 1);
        assert(t1 =~= t0.push(dn[k as int]));
        assert forall|x: Seq<char>| #[trigger] t1.contains(x) == (t0.contains(x) || x == dn[k as int]) by {
            if t1.contains(x) && x != dn[k as int] {
                let y = choose|y: int| 0 <= y < t1.len() && t1[y] == x;
                assert(t0[y] == x);
            }
            if t0.contains(x) {
                let y = choose|y: int| 0 <= y < t0.len() && t0[y] == x;
                assert(t1[y] == x);
            }
            if x == dn[k as int] {
                assert(t1[k as int] == x);
            }
        }
        assert(m@ =~= dep_states_of(t1, global@));
        k += 1;
    }
    assert(dn.take(deps.len() as int) =~= dn);
    m
}

/// One reconciliation round over a workspace: for each source, its new
/// content when the round changes it. Every ref checkbox comes to follow
/// the solved done states of its targets, then parents follow their
/// children.
pub fn reconcile_round(notes: &[NoteSource]) -> (r: Vec<Option<String>>)
    ensures
        r.len() == notes.len(),
        forall|i: int|
            0 <= i < notes.len() ==> {
                let new = rewritten(notes@[i].content@, solved(notes@));
                match #[trigger] r@[i] {
                    Some(c) => c@ == new && new != notes@[i].content@,
                    None => new == notes@[i].content@,
                }
            },
{
    let global = solve_global(notes);
    let mut out: Vec<Option<String>> = Vec::new();
    let mut i: usize = 0;
    while i < notes.len()
        invariant
            i <= notes.len(),
            out.len() == i,
            global@ == solved(notes@),
            forall|j: int|
                0 <= j < i ==> {
                    let new = rewritten(notes@[j].content@, solved(notes@));
                    match #[trigger] out@[j] {
                        Some(c) => c@ == new && new != notes@[j].content@,
                        None => new == notes@[j].content@,
                    }
                },
        decreases notes.len() - i,
    {
        let content = notes[i].content.as_str();
        let deps = extract_todo_deps(content);
        let dm = dep_states_for(&deps, &global);
        let new_content = normalize_note(content, &dm);
        if crate::text::str_eq(new_content.as_str(), content) {
            out.push(None);
        } else {
            out.push(Some(new_content));
        }
        i += 1;
    }
    out
}

/// After a round that rewrote `round_changed` files, with `total` rewritten
/// before it: the new total, and the run's outcome once a round changes
/// nothing.
pub fn after_round(round: usize, total: usize, round_changed: usize) -> (r: (usize, Option<ReconcileStats>))
    requires
        round < usize::MAX,
        total + round_changed <= usize::MAX,
    ensures
        r.0 == total + round_changed,
        r.1 is Some <==> round_changed == 0,
        r.1 matches Some(s) ==> s.rounds == round + 1 && s.files_changed == r.0 && s.converged,
{
    let t = total + round_changed;
    if round_changed == 0 {
        (t, Some(ReconcileStats { rounds: round + 1, files_changed: t, converged: true }))
    } else {
        (t, None)
    }
}

/// The outcome of a run whose `max_rounds` rounds all changed something.
pub fn exhausted(max_rounds: usize, total: usize) -> (s: ReconcileStats)
    ensures
        s.rounds == max_rounds,
        s.files_changed == total,
        !s.converged,
{
    ReconcileStats { rounds: max_rounds, files_changed: total, converged: false }
}

} // verus!
