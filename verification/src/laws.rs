//! Properties of the library that span inputs or functions, proved over
//! the models that the functions' contracts use.
use vstd::prelude::*;
use crate::cycle::{cycles_of, cycles_upto, components, inner_upto, is_cycle, scc_ids, CycleModel};
use crate::dependency_graph::{GraphModel, OccModel};
use crate::reach::{in_some, is_scc_partition, lemma_leader_partition, mutual, reach, together};
use crate::cycle::{sccs_of, tarjan_run};
use crate::dependency_graph::kept;
use crate::reconcile::{dep_adj, dep_nodes, scc_dag};
use crate::topo::{is_topo_order, lemma_by_count_topo, lemma_partition_len, solve_order};
use crate::metadata::{position_at_from, positions_of, PositionModel};
use crate::parser::{indent_bytes, is_todo_line, todo_state, starts_with};
use crate::parser::{
    close_comment, comment_segments, filtered_line, filtered_refs, filtered_upto, id_matches_from, lemma_find_from,
    lemma_id_matches_from_bounds, find_from, open_comment, refs_upto, segment_refs, segs_refs, RefModel,
};
use crate::text::is_decimal_digit;
use crate::reconcile::types::{aggregate_spec, Status};
use crate::reconcile::writeback::replace_state;
use crate::reconcile::{add_new, deps_upto, overlay, todo_deps, component_ids, iterate, round_values, solve_component, MAX_SCC_ROUNDS};
use crate::reconcile::observe::NoteSource;
use crate::metadata::index::{
    assoc_get, assoc_index, assoc_set, notes_of, put_record, record_table_in, snapshot_lookup, snapshot_of, snapshot_upto,
    IndexErrorModel,
};
use crate::metadata::note_id_spec;
use crate::reconcile::eval::{builtin_value, Ctx};
use crate::reconcile::types::ValueModel;
use crate::cycle::str_lt;
use crate::metadata::render::{insert_sorted, sort_upto, sorted};
use crate::handlers::references::{digits_text, first_id_match, id_at_col, id_match_at, is_digit_byte};
use crate::server::{lemma_column_char, lemma_line_start, line_start, position_char, Position};
use crate::metadata::records::{read_error, record_error_message, record_of, RecordModel};
use crate::metadata::records::{core_fields, canonical_record, merge_missing, merge_upto, patch_entry_error, patch_step, patch_upto};
use crate::config::MetadataFieldConfig;
use crate::metadata_schema::{key_index, lemma_key_index_push, lemma_key_index_update, lemma_key_index_value, lemma_table_set, table_set};
use crate::note_ops::entry_value;
use crate::toml_value::TomlModel;
use crate::text::{char_len, is_ws, lemma_utf8_len_ge_len, lines, trim_start, utf8_len, ws_prefix_len};

verus! {

// ---------------------------------------------------------------------------
// Checklist statuses
// ---------------------------------------------------------------------------

/// `none` entries do not change an aggregate status.
pub proof fn law_aggregate_ignores_none(s: Seq<Status>)
    ensures
        aggregate_spec(s.push(Status::NotApplicable)) == aggregate_spec(s),
{
    let t = s.push(Status::NotApplicable);
    let na = Status::NotApplicable;
    assert(t[s.len() as int] == na);
    assert((forall|i: int| 0 <= i < t.len() ==> t[i] == na) <==> (forall|i: int| 0 <= i < s.len() ==> s[i] == na)) by {
        if forall|i: int| 0 <= i < s.len() ==> s[i] == na {
            assert forall|i: int| 0 <= i < t.len() implies t[i] == na by {
                if i < s.len() {
                    assert(t[i] == s[i]);
                }
            }
        }
        if forall|i: int| 0 <= i < t.len() ==> t[i] == na {
            assert forall|i: int| 0 <= i < s.len() implies s[i] == na by {
                assert(t[i] == s[i]);
            }
        }
    }
    let d = Status::Done;
    assert((forall|i: int| 0 <= i < t.len() ==> t[i] == na || t[i] == d) <==> (forall|i: int|
        0 <= i < s.len() ==> s[i] == na || s[i] == d)) by {
        if forall|i: int| 0 <= i < s.len() ==> s[i] == na || s[i] == d {
            assert forall|i: int| 0 <= i < t.len() implies t[i] == na || t[i] == d by {
                if i < s.len() {
                    assert(t[i] == s[i]);
                }
            }
        }
        if forall|i: int| 0 <= i < t.len() ==> t[i] == na || t[i] == d {
            assert forall|i: int| 0 <= i < s.len() implies s[i] == na || s[i] == d by {
                assert(t[i] == s[i]);
            }
        }
    }
    let o = Status::Todo;
    assert((forall|i: int| 0 <= i < t.len() ==> t[i] == na || t[i] == o) <==> (forall|i: int|
        0 <= i < s.len() ==> s[i] == na || s[i] == o)) by {
        if forall|i: int| 0 <= i < s.len() ==> s[i] == na || s[i] == o {
            assert forall|i: int| 0 <= i < t.len() implies t[i] == na || t[i] == o by {
                if i < s.len() {
                    assert(t[i] == s[i]);
                }
            }
        }
        if forall|i: int| 0 <= i < t.len() ==> t[i] == na || t[i] == o {
            assert forall|i: int| 0 <= i < s.len() implies s[i] == na || s[i] == o by {
                assert(t[i] == s[i]);
            }
        }
    }
}

/// An aggregate is `done` exactly when some entry is applicable and every
/// applicable entry is `done`; one entry in progress makes it `wip`.
pub proof fn law_aggregate_done(s: Seq<Status>)
    ensures
        aggregate_spec(s) == Status::Done <==> (exists|i: int| 0 <= i < s.len() && s[i] != Status::NotApplicable)
            && (forall|i: int| 0 <= i < s.len() && s[i] != Status::NotApplicable ==> s[i] == Status::Done),
        (exists|i: int| 0 <= i < s.len() && s[i] == Status::Wip) ==> aggregate_spec(s) == Status::Wip,
{
    if exists|i: int| 0 <= i < s.len() && s[i] == Status::Wip {
        let i = choose|i: int| 0 <= i < s.len() && s[i] == Status::Wip;
        assert(s[i] != Status::NotApplicable);
    }
}

// ---------------------------------------------------------------------------
// Checkbox lines
// ---------------------------------------------------------------------------

proof fn lemma_ws_prefix_same(a: Seq<char>, b: Seq<char>, w: int)
    requires
        0 <= w < a.len(),
        w < b.len(),
        forall|i: int| 0 <= i <= w ==> a[i] == b[i],
        ws_prefix_len(a) == w,
    ensures
        ws_prefix_len(b) == w,
    decreases w,
{
    if w > 0 {
        assert(is_ws(a[0]));
        lemma_ws_prefix_same(a.drop_first(), b.drop_first(), w - 1);
    } else {
        assert(!is_ws(a[0]));
    }
}

/// On a todo line indented with ASCII white space, setting the checkbox
/// state to an ASCII char and reading it back gives that char.
pub proof fn law_replace_then_read_state(line: Seq<char>, st: char)
    requires
        is_todo_line(line),
        indent_bytes(line) == ws_prefix_len(line),
        trim_start(line).len() >= 5,
        char_len(st) == 1,
    ensures
        replace_state(line, st) matches Some(u) && is_todo_line(u) && todo_state(u) == Some(st),
{
    let w = ws_prefix_len(line) as int;
    crate::text::lemma_ws_prefix_len_bound(line);
    let t = trim_start(line);
    assert(t[0] == '-');
    assert(line[w] == t[0]);
    let u = line.update(w + 3, st);
    assert(replace_state(line, st) == Some(u));
    lemma_ws_prefix_same(line, u, w);
    let tu = trim_start(u);
    assert(tu =~= t.update(3, st));
    assert(tu.take(3) =~= t.take(3));
    lemma_utf8_len_ge_len(tu);
}

// ---------------------------------------------------------------------------
// Cycles
// ---------------------------------------------------------------------------

proof fn lemma_inner_upto(occs: Seq<OccModel>, ids: Seq<Seq<char>>, k: int)
    requires
        0 <= k <= occs.len(),
    ensures
        forall|o: OccModel| #[trigger] inner_upto(occs, ids, k).contains(o) <==> (occs.take(k).contains(o) && ids.contains(o.from)
            && ids.contains(o.to)),
    decreases k,
{
    if k > 0 {
        lemma_inner_upto(occs, ids, k - 1);
        let prev = inner_upto(occs, ids, k - 1);
        let o1 = occs[k - 1];
        assert(occs.take(k) =~= occs.take(k - 1).push(o1));
        assert forall|o: OccModel| #[trigger] inner_upto(occs, ids, k).contains(o) <==> (occs.take(k).contains(o) && ids.contains(o.from)
            && ids.contains(o.to)) by {
            let cur = inner_upto(occs, ids, k);
            if occs.take(k).contains(o) && ids.contains(o.from) && ids.contains(o.to) {
                let y = choose|y: int| 0 <= y < k && #[trigger] occs.take(k)[y] == o;
                if y < k - 1 {
                    assert(occs.take(k - 1)[y] == o);
                    assert(prev.contains(o));
                    let z = choose|z: int| 0 <= z < prev.len() && prev[z] == o;
                    if ids.contains(o1.from) && ids.contains(o1.to) {
                        assert(cur[z] == o);
                    }
                } else {
                    assert(cur[cur.len() - 1] == o);
                }
            }
            if cur.contains(o) {
                let z = choose|z: int| 0 <= z < cur.len() && cur[z] == o;
                if ids.contains(o1.from) && ids.contains(o1.to) && z == cur.len() - 1 {
                    assert(occs.take(k)[k - 1] == o);
                } else {
                    assert(prev[z] == o);
                    assert(prev.contains(o));
                    assert(occs.take(k - 1).contains(o));
                    let y = choose|y: int| 0 <= y < k - 1 && #[trigger] occs.take(k - 1)[y] == o;
                    assert(occs.take(k)[y] == o);
                }
            }
        }
    }
}

/// Each cycle among the first `k` components is listed.
proof fn lemma_cycles_upto_complete(g: GraphModel, sccs: Seq<Seq<usize>>, k: int)
    requires
        0 <= k <= sccs.len(),
    ensures
        forall|j: int|
            0 <= j < k && #[trigger] is_cycle(g, sccs[j]) ==> exists|i: int|
                0 <= i < cycles_upto(g, sccs, k).len() && (#[trigger] cycles_upto(g, sccs, k)[i]).nodes == scc_ids(
                    g,
                    sccs[j],
                ),
    decreases k,
{
    if k > 0 {
        lemma_cycles_upto_complete(g, sccs, k - 1);
        let prev = cycles_upto(g, sccs, k - 1);
        let cur = cycles_upto(g, sccs, k);
        assert forall|j: int| 0 <= j < k && #[trigger] is_cycle(g, sccs[j]) implies exists|i: int|
            0 <= i < cur.len() && (#[trigger] cur[i]).nodes == scc_ids(g, sccs[j]) by {
            if j == k - 1 {
                assert(cur[cur.len() - 1].nodes == scc_ids(g, sccs[j]));
            } else {
                let i = choose|i: int| 0 <= i < prev.len() && (#[trigger] prev[i]).nodes == scc_ids(g, sccs[j]);
                assert(cur[i] == prev[i]);
            }
        }
    }
}

proof fn lemma_cycles_upto(g: GraphModel, sccs: Seq<Seq<usize>>, k: int)
    requires
        0 <= k <= sccs.len(),
    ensures
        forall|c: CycleModel|
            #[trigger] cycles_upto(g, sccs, k).contains(c) ==> exists|j: int|
                0 <= j < k && is_cycle(g, sccs[j]) && c.nodes == scc_ids(g, sccs[j]) && c.edges == inner_upto(
                    g.occs,
                    c.nodes,
                    g.occs.len() as int,
                ),
    decreases k,
{
    if k > 0 {
        lemma_cycles_upto(g, sccs, k - 1);
        let prev = cycles_upto(g, sccs, k - 1);
        assert forall|c: CycleModel| #[trigger] cycles_upto(g, sccs, k).contains(c) implies exists|j: int|
            0 <= j < k && is_cycle(g, sccs[j]) && c.nodes == scc_ids(g, sccs[j]) && c.edges == inner_upto(
                g.occs,
                c.nodes,
                g.occs.len() as int,
            ) by {
            let cur = cycles_upto(g, sccs, k);
            let z = choose|z: int| 0 <= z < cur.len() && cur[z] == c;
            if is_cycle(g, sccs[k - 1]) && z == cur.len() - 1 {
            } else {
                assert(prev[z] == c);
                assert(prev.contains(c));
            }
        }
    }
}

/// The components of a graph are its strongly connected components: any
/// two members of a component reach each other; a node that reaches a
/// member and is reached from it belongs to that component; every node
/// belongs to exactly one component, at one place in it; no component is
/// empty.
pub proof fn law_components_are_sccs(g: GraphModel)
    requires
        g.nodes.len() <= usize::MAX,
    ensures
        forall|i: int, j1: int, j2: int|
            0 <= i < components(g).len() && 0 <= j1 < components(g)[i].len() && 0 <= j2 < components(g)[i].len()
                ==> reach(g.adj, g.nodes.len(), #[trigger] components(g)[i][j1], #[trigger] components(g)[i][j2]),
        forall|i: int, j: int, v: usize|
            0 <= i < components(g).len() && 0 <= j < components(g)[i].len() && v < g.nodes.len() && reach(
                g.adj,
                g.nodes.len(),
                #[trigger] components(g)[i][j],
                v,
            ) && #[trigger] reach(g.adj, g.nodes.len(), v, components(g)[i][j]) ==> components(g)[i].contains(v),
        forall|v: usize| v < g.nodes.len() ==> #[trigger] in_some(components(g), v),
        forall|i1: int, j1: int, i2: int, j2: int|
            0 <= i1 < components(g).len() && 0 <= j1 < components(g)[i1].len() && 0 <= i2 < components(g).len() && 0
                <= j2 < components(g)[i2].len() && #[trigger] components(g)[i1][j1] == #[trigger] components(g)[i2][j2]
                ==> i1 == i2 && j1 == j2,
        forall|i: int, j: int|
            0 <= i < components(g).len() && 0 <= j < components(g)[i].len() ==> #[trigger] components(g)[i][j]
                < g.nodes.len(),
        forall|i: int| 0 <= i < components(g).len() ==> (#[trigger] components(g)[i]).len() > 0,
{
    let cs = components(g);
    let n = g.nodes.len();
    lemma_leader_partition(g.adj, n);
    assert(is_scc_partition(g.adj, n, cs));
    assert forall|i: int, j1: int, j2: int| 0 <= i < cs.len() && 0 <= j1 < cs[i].len() && 0 <= j2 < cs[i].len() implies reach(
        g.adj,
        n,
        #[trigger] cs[i][j1],
        #[trigger] cs[i][j2],
    ) by {
        let x = cs[i][j1];
        let y = cs[i][j2];
        assert(cs[i].contains(x) && cs[i].contains(y));
        assert(together(cs, x, y));
    }
    assert forall|i: int, j: int, v: usize|
        0 <= i < cs.len() && 0 <= j < cs[i].len() && v < n && reach(g.adj, n, #[trigger] cs[i][j], v) && #[trigger] reach(
            g.adj,
            n,
            v,
            cs[i][j],
        ) implies cs[i].contains(v) by {
        let x = cs[i][j];
        assert(mutual(g.adj, n, x, v));
        assert(together(cs, x, v));
        let i2 = choose|i2: int| 0 <= i2 < cs.len() && #[trigger] cs[i2].contains(x) && cs[i2].contains(v);
        let j2 = choose|j2: int| 0 <= j2 < cs[i2].len() && cs[i2][j2] == x;
        assert(cs[i2][j2] == cs[i][j]);
    }
}

/// The components of the dependency graph are solved dependencies first:
/// `solved` goes through `solve_order` from its last entry to its first,
/// and that order lists each component exactly once and puts every
/// component before each component it has an edge to in the component DAG,
/// so every component is solved after all the components it depends on.
pub proof fn law_dependencies_solved_first(srcs: Seq<NoteSource>)
    requires
        dep_nodes(kept(srcs)).len() <= usize::MAX,
    ensures
        ({
            let ks = kept(srcs);
            let nodes = dep_nodes(ks);
            let adj = dep_adj(ks, nodes);
            let sccs = sccs_of(nodes, adj);
            &&& is_scc_partition(adj, nodes.len(), sccs)
            &&& is_topo_order(scc_dag(adj, sccs), sccs.len(), solve_order(adj, nodes.len(), sccs))
        }),
{
    let ks = kept(srcs);
    let nodes = dep_nodes(ks);
    let adj = dep_adj(ks, nodes);
    let sccs = sccs_of(nodes, adj);
    let n = nodes.len();
    lemma_leader_partition(adj, n);
    assert(sccs == crate::reach::checked_components(tarjan_run(nodes, adj), adj, n));
    assert(is_scc_partition(adj, n, sccs));
    lemma_partition_len(adj, n, sccs);
    lemma_by_count_topo(adj, n, sccs);
}

/// `nodes` are the nodes of a strongly connected component of `g` that is a
/// cycle.
pub open spec fn cycle_component(g: GraphModel, nodes: Seq<Seq<char>>) -> bool {
    exists|j: int|
        0 <= j < components(g).len() && #[trigger] is_cycle(g, components(g)[j]) && nodes == scc_ids(g, components(g)[j])
}

/// The cycles found are exactly the strongly connected components
/// (`law_components_are_sccs`) with more than one node or a self edge: every
/// cycle found is such a component, and every such component is found. The
/// edges of a cycle are exactly the graph's occurrences whose two endpoints
/// both lie among its nodes, in graph order.
pub proof fn law_cycles_are_components(g: GraphModel)
    ensures
        forall|i: int| 0 <= i < cycles_of(g).len() ==> cycle_component(g, (#[trigger] cycles_of(g)[i]).nodes),
        forall|j: int|
            0 <= j < components(g).len() && #[trigger] is_cycle(g, components(g)[j]) ==> exists|i: int|
                0 <= i < cycles_of(g).len() && (#[trigger] cycles_of(g)[i]).nodes == scc_ids(g, components(g)[j]),
        forall|i: int, o: OccModel|
            0 <= i < cycles_of(g).len() ==> (#[trigger] cycles_of(g)[i].edges.contains(o) <==> (g.occs.contains(o)
                && cycles_of(g)[i].nodes.contains(o.from) && cycles_of(g)[i].nodes.contains(o.to))),
{
    let sccs = components(g);
    lemma_cycles_upto(g, sccs, sccs.len() as int);
    lemma_cycles_upto_complete(g, sccs, sccs.len() as int);
    assert forall|j: int| 0 <= j < components(g).len() && #[trigger] is_cycle(g, components(g)[j]) implies exists|i: int|
        0 <= i < cycles_of(g).len() && (#[trigger] cycles_of(g)[i]).nodes == scc_ids(g, components(g)[j]) by {
        let cu = cycles_upto(g, sccs, sccs.len() as int);
        assert(cu == cycles_of(g));
        assert(is_cycle(g, sccs[j]));
        let i = choose|i: int| 0 <= i < cu.len() && (#[trigger] cu[i]).nodes == scc_ids(g, sccs[j]);
        assert(cycles_of(g)[i].nodes == scc_ids(g, components(g)[j]));
    }
    assert(g.occs.take(g.occs.len() as int) =~= g.occs);
    assert forall|i: int, o: OccModel| 0 <= i < cycles_of(g).len() implies (#[trigger] cycles_of(g)[i].edges.contains(o)
        <==> (g.occs.contains(o) && cycles_of(g)[i].nodes.contains(o.from) && cycles_of(g)[i].nodes.contains(o.to))) by {
        let c = cycles_of(g)[i];
        assert(cycles_of(g).contains(c));
        lemma_inner_upto(g.occs, c.nodes, g.occs.len() as int);
    }
    assert forall|i: int| 0 <= i < cycles_of(g).len() implies cycle_component(g, (#[trigger] cycles_of(g)[i]).nodes) by {
        let c = cycles_of(g)[i];
        assert(cycles_upto(g, sccs, sccs.len() as int)[i] == c);
        assert(cycles_upto(g, sccs, sccs.len() as int).contains(c));
        let j = choose|j: int|
            0 <= j < sccs.len() && is_cycle(g, sccs[j]) && c.nodes == scc_ids(g, sccs[j]) && c.edges == inner_upto(
                g.occs,
                c.nodes,
                g.occs.len() as int,
            );
        assert(is_cycle(g, components(g)[j]));
    }
}

// ---------------------------------------------------------------------------
// Metadata positions
// ---------------------------------------------------------------------------

proof fn lemma_position_at_from(ps: Seq<PositionModel>, k: int, line: int, col: int)
    requires
        0 <= k,
    ensures
        position_at_from(ps, k, line, col) matches Some(p) ==> exists|j: int|
            k <= j < ps.len() && ps[j] == p && p.line == line && p.start_col <= col <= p.end_col,
        position_at_from(ps, k, line, col) is None ==> forall|j: int|
            k <= j < ps.len() ==> !((#[trigger] ps[j]).line == line && ps[j].start_col <= col <= ps[j].end_col),
    decreases ps.len() - k,
{
    if k < ps.len() && !(ps[k].line == line && ps[k].start_col <= col <= ps[k].end_col) {
        lemma_position_at_from(ps, k + 1, line, col);
    }
}

/// The ID under a cursor is one of the document's listed ID positions,
/// on the cursor's line with the cursor inside its range; there is none
/// only when no listed position holds the cursor.
pub proof fn law_id_at_position_is_listed(content: Seq<char>, line: int, col: int)
    ensures
        position_at_from(positions_of(content), 0, line, col) matches Some(p) ==> positions_of(content).contains(p)
            && p.line == line && p.start_col <= col <= p.end_col,
        position_at_from(positions_of(content), 0, line, col) is None ==> forall|j: int|
            0 <= j < positions_of(content).len() ==> !((#[trigger] positions_of(content)[j]).line == line
                && positions_of(content)[j].start_col <= col <= positions_of(content)[j].end_col),
{
    lemma_position_at_from(positions_of(content), 0, line, col);
}

// ---------------------------------------------------------------------------
// Reconciliation
// ---------------------------------------------------------------------------

proof fn lemma_add_new_distinct(acc: Seq<Seq<char>>, ids: Seq<Seq<char>>, k: int)
    requires
        acc.no_duplicates(),
        0 <= k <= ids.len(),
    ensures
        add_new(acc, ids, k).no_duplicates(),
    decreases k,
{
    if k > 0 {
        lemma_add_new_distinct(acc, ids, k - 1);
    }
}

proof fn lemma_deps_distinct(ls: Seq<Seq<char>>, n: int)
    requires
        0 <= n <= ls.len(),
    ensures
        deps_upto(ls, n).no_duplicates(),
    decreases n,
{
    if n > 0 {
        lemma_deps_distinct(ls, n - 1);
        let ids = crate::reconcile::writeback::line_ids(ls[n - 1]);
        lemma_add_new_distinct(deps_upto(ls, n - 1), ids, ids.len() as int);
    }
}

/// A note's dependencies name each note once.
pub proof fn law_todo_deps_distinct(content: Seq<char>)
    ensures
        todo_deps(content).no_duplicates(),
{
    lemma_deps_distinct(lines(content), lines(content).len() as int);
}

proof fn lemma_overlay_at(g: Map<Seq<char>, bool>, ids: Seq<Seq<char>>, vals: Seq<bool>, k: int, key: Seq<char>)
    requires
        0 <= k <= ids.len(),
    ensures
        !ids.take(k).contains(key) ==> overlay(g, ids, vals, k).contains_key(key) == g.contains_key(key)
            && overlay(g, ids, vals, k)[key] == g[key],
        ids.take(k).contains(key) ==> overlay(g, ids, vals, k).contains_key(key),
    decreases k,
{
    if k > 0 {
        lemma_overlay_at(g, ids, vals, k - 1, key);
        assert(ids.take(k) =~= ids.take(k - 1).push(ids[k - 1]));
        if ids.take(k - 1).contains(key) {
            let y = choose|y: int| 0 <= y < k - 1 && #[trigger] ids.take(k - 1)[y] == key;
            assert(ids.take(k)[y] == key);
        }
        if ids.take(k).contains(key) && key != ids[k - 1] {
            let y = choose|y: int| 0 <= y < k && #[trigger] ids.take(k)[y] == key;
            assert(ids.take(k - 1)[y] == key);
        }
        if key == ids[k - 1] {
            assert(ids.take(k)[k - 1] == key);
        }
    }
}

proof fn lemma_overlay_same_inside(
    g1: Map<Seq<char>, bool>,
    g2: Map<Seq<char>, bool>,
    ids: Seq<Seq<char>>,
    vals: Seq<bool>,
    k: int,
    key: Seq<char>,
)
    requires
        0 <= k <= ids.len(),
        ids.take(k).contains(key),
    ensures
        overlay(g1, ids, vals, k)[key] == overlay(g2, ids, vals, k)[key],
    decreases k,
{
    if ids[k - 1] != key {
        let y = choose|y: int| 0 <= y < k && #[trigger] ids.take(k)[y] == key;
        assert(ids.take(k - 1)[y] == key);
        lemma_overlay_same_inside(g1, g2, ids, vals, k - 1, key);
    }
}

/// A component is solved over the states of the other components: the
/// states recorded for its own nodes do not matter, since its current
/// values replace them.
pub proof fn law_component_ignores_own_entries(g: Map<Seq<char>, bool>, ids: Seq<Seq<char>>, vals: Seq<bool>)
    ensures
        overlay(g.remove_keys(ids.to_set()), ids, vals, ids.len() as int) == overlay(g, ids, vals, ids.len() as int),
{
    let n = ids.len() as int;
    let e = g.remove_keys(ids.to_set());
    let lhs = overlay(e, ids, vals, n);
    let rhs = overlay(g, ids, vals, n);
    assert(ids.take(n) =~= ids);
    assert forall|key: Seq<char>| #[trigger] lhs.contains_key(key) == rhs.contains_key(key) && (lhs.contains_key(key) ==> lhs[key] == rhs[key]) by {
        lemma_overlay_at(e, ids, vals, n, key);
        lemma_overlay_at(g, ids, vals, n, key);
        if ids.contains(key) {
            lemma_overlay_same_inside(e, g, ids, vals, n, key);
        } else {
            assert(!ids.to_set().contains(key));
        }
    }
    assert(lhs =~= rhs);
}

// ---------------------------------------------------------------------------
// The metadata index
// ---------------------------------------------------------------------------

/// A record table put into the index is read back, in canonical order.
pub proof fn law_put_then_read(root: Seq<(Seq<char>, TomlModel)>, id: Seq<char>, table: Seq<(Seq<char>, TomlModel)>)
    requires
        put_record(root, id, table) is Ok,
    ensures
        record_table_in(put_record(root, id, table)->Ok_0, id) == Ok::<_, IndexErrorModel>(canonical_record(table)),
{
    let r1 = table_set(root, "format-version"@, TomlModel::Integer(1));
    let rec = TomlModel::Table(canonical_record(table));
    lemma_key_index_value(r1, "notes"@, 0);
    match key_index(r1, "notes"@, 0) {
        None => {
            let e = ("notes"@, TomlModel::Table(seq![(id, rec)]));
            lemma_key_index_push(r1, "notes"@, e, 0);
            lemma_key_index_value(r1.push(e), "notes"@, 0);
            assert(entry_value(seq![(id, rec)], id, 0) == Some(rec));
        },
        Some(i) => {
            match r1[i].1 {
                TomlModel::Table(n) => {
                    let e = ("notes"@, TomlModel::Table(table_set(n, id, rec)));
                    lemma_key_index_update(r1, "notes"@, i, e, 0);
                    lemma_key_index_value(r1.update(i, e), "notes"@, 0);
                    lemma_table_set(n, id, rec, id);
                },
                _ => {},
            }
        },
    }
}

/// Putting one record into an index that has a `notes` table leaves every
/// other record as it was.
pub proof fn law_put_keeps_other_records(
    root: Seq<(Seq<char>, TomlModel)>,
    id: Seq<char>,
    table: Seq<(Seq<char>, TomlModel)>,
    other: Seq<char>,
)
    requires
        put_record(root, id, table) is Ok,
        notes_of(root) is Some,
        other != id,
    ensures
        record_table_in(put_record(root, id, table)->Ok_0, other) == record_table_in(root, other),
{
    reveal_strlit("notes");
    reveal_strlit("format-version");
    assert("notes"@ != "format-version"@) by {
        assert("notes"@.len() != "format-version"@.len());
    }
    let n = notes_of(root)->0;
    let r1 = table_set(root, "format-version"@, TomlModel::Integer(1));
    let rec = TomlModel::Table(canonical_record(table));
    lemma_table_set(root, "format-version"@, TomlModel::Integer(1), "notes"@);
    lemma_key_index_value(root, "notes"@, 0);
    lemma_key_index_value(r1, "notes"@, 0);
    let i = key_index(r1, "notes"@, 0)->0;
    assert(r1[i].1 == TomlModel::Table(n));
    let e = ("notes"@, TomlModel::Table(table_set(n, id, rec)));
    lemma_key_index_update(r1, "notes"@, i, e, 0);
    lemma_key_index_value(r1.update(i, e), "notes"@, 0);
    lemma_table_set(n, id, rec, other);
}

/// One step of completing a table keeps every key that was there, with
/// its value unless the key is the step's own and both values are tables;
/// and the step's key is there after it.
proof fn lemma_merge_step(t: Seq<(Seq<char>, TomlModel)>, d: Seq<(Seq<char>, TomlModel)>, n: int, k: Seq<char>)
    requires
        0 < n <= d.len(),
    ensures
        entry_value(merge_upto(t, d, n), d[n - 1].0, 0) is Some,
        entry_value(merge_upto(t, d, n - 1), k, 0) is Some ==> entry_value(merge_upto(t, d, n), k, 0) is Some,
        (entry_value(merge_upto(t, d, n - 1), k, 0) matches Some(v) && !(v is Table)) ==> entry_value(
            merge_upto(t, d, n),
            k,
            0,
        ) == entry_value(merge_upto(t, d, n - 1), k, 0),
{
    let cur = merge_upto(t, d, n - 1);
    let key = d[n - 1].0;
    lemma_key_index_value(cur, key, 0);
    lemma_key_index_value(cur, k, 0);
    match key_index(cur, key, 0) {
        None => {
            lemma_key_index_push(cur, key, d[n - 1], 0);
            lemma_key_index_push(cur, k, d[n - 1], 0);
            lemma_key_index_value(cur.push(d[n - 1]), key, 0);
            lemma_key_index_value(cur.push(d[n - 1]), k, 0);
        },
        Some(i) => {
            match (cur[i].1, d[n - 1].1) {
                (TomlModel::Table(tt), TomlModel::Table(dt)) => {
                    let e = (key, TomlModel::Table(merge_upto(tt, dt, dt.len() as int)));
                    lemma_key_index_update(cur, key, i, e, 0);
                    lemma_key_index_update(cur, k, i, e, 0);
                    lemma_key_index_value(cur.update(i, e), key, 0);
                    lemma_key_index_value(cur.update(i, e), k, 0);
                },
                _ => {},
            }
        },
    }
}

proof fn lemma_merge_keeps(t: Seq<(Seq<char>, TomlModel)>, d: Seq<(Seq<char>, TomlModel)>, n: int, k: Seq<char>)
    requires
        0 <= n <= d.len(),
        entry_value(t, k, 0) matches Some(v) && !(v is Table),
    ensures
        entry_value(merge_upto(t, d, n), k, 0) == entry_value(t, k, 0),
    decreases n,
{
    if n > 0 {
        lemma_merge_keeps(t, d, n - 1, k);
        lemma_merge_step(t, d, n, k);
    }
}

proof fn lemma_merge_adds(t: Seq<(Seq<char>, TomlModel)>, d: Seq<(Seq<char>, TomlModel)>, n: int, j: int)
    requires
        0 <= j < n <= d.len(),
    ensures
        entry_value(merge_upto(t, d, n), d[j].0, 0) is Some,
    decreases n,
{
    lemma_merge_step(t, d, n, d[j].0);
    if j < n - 1 {
        lemma_merge_adds(t, d, n - 1, j);
    }
}

/// Completing a table with defaults keeps every value that is no table
/// (a table is completed in turn), and leaves no default key missing.
pub proof fn law_complete_keeps_values_adds_defaults(
    t: Seq<(Seq<char>, TomlModel)>,
    d: Seq<(Seq<char>, TomlModel)>,
    k: Seq<char>,
)
    ensures
        (entry_value(t, k, 0) matches Some(v) && !(v is Table)) ==> entry_value(merge_missing(t, d), k, 0) == entry_value(
            t,
            k,
            0,
        ),
        entry_value(d, k, 0) is Some ==> entry_value(merge_missing(t, d), k, 0) is Some,
{
    if entry_value(t, k, 0) matches Some(v) && !(v is Table) {
        lemma_merge_keeps(t, d, d.len() as int, k);
    }
    lemma_key_index_value(d, k, 0);
    if entry_value(d, k, 0) is Some {
        let j = key_index(d, k, 0)->0;
        lemma_merge_adds(t, d, d.len() as int, j);
    }
}

/// A patch entry that passes its check and can be set is set: a key in
/// the table, a `user.` key in the `user` table.
pub proof fn law_patch_sets_value(
    t: Seq<(Seq<char>, TomlModel)>,
    key: Seq<char>,
    v: TomlModel,
    fields: Seq<MetadataFieldConfig>,
)
    requires
        patch_entry_error(key, v, fields) is None,
        patch_step(t, key, v) is Ok,
    ensures
        ({
            let (t2, err) = patch_upto(t, seq![(key, v)], fields, 1);
            &&& err is None
            &&& !starts_with(key, "user."@) ==> entry_value(t2, key, 0) == Some(v)
            &&& starts_with(key, "user."@) ==> (entry_value(t2, "user"@, 0) matches Some(TomlModel::Table(u)) && entry_value(
                u,
                key.skip(5),
                0,
            ) == Some(v))
        }),
{
    let p = seq![(key, v)];
    assert(patch_upto(t, p, fields, 0) == (t, None::<crate::metadata::records::RecordErrorModel>));
    assert(p[0] == (key, v));
    if starts_with(key, "user."@) {
        let uk = key.skip(5);
        lemma_key_index_value(t, "user"@, 0);
        match key_index(t, "user"@, 0) {
            None => {
                let inner = table_set(seq![], uk, v);
                lemma_table_set(seq![], uk, v, uk);
                lemma_table_set(t, "user"@, TomlModel::Table(inner), "user"@);
            },
            Some(i) => {
                match t[i].1 {
                    TomlModel::Table(es) => {
                        let e = ("user"@, TomlModel::Table(table_set(es, uk, v)));
                        lemma_key_index_update(t, "user"@, i, e, 0);
                        lemma_key_index_value(t.update(i, e), "user"@, 0);
                        lemma_table_set(es, uk, v, uk);
                    },
                    _ => {},
                }
            },
        }
    } else {
        lemma_table_set(t, key, v, key);
    }
}

proof fn lemma_assoc_index_update<V>(s: Seq<(Seq<char>, V)>, k: Seq<char>, i: int, e: (Seq<char>, V), j: int)
    requires
        0 <= i < s.len(),
        0 <= j,
        e.0 == s[i].0,
    ensures
        assoc_index(s.update(i, e), k, j) == assoc_index(s, k, j),
    decreases s.len() - j,
{
    if j < s.len() && s.update(i, e)[j].0 != k {
        lemma_assoc_index_update(s, k, i, e, j + 1);
    }
}

proof fn lemma_assoc_index_push<V>(s: Seq<(Seq<char>, V)>, k: Seq<char>, e: (Seq<char>, V), j: int)
    requires
        0 <= j <= s.len(),
    ensures
        assoc_index(s, k, j) is Some ==> assoc_index(s.push(e), k, j) == assoc_index(s, k, j),
        assoc_index(s, k, j) is None ==> assoc_index(s.push(e), k, j) == (if e.0 == k {
            Some(s.len() as int)
        } else {
            None
        }),
    decreases s.len() - j,
{
    if j < s.len() && s[j].0 != k {
        lemma_assoc_index_push(s, k, e, j + 1);
    } else if j == s.len() {
        assert(assoc_index(s.push(e), k, j + 1) is None);
    }
}

proof fn lemma_assoc_index_found<V>(s: Seq<(Seq<char>, V)>, k: Seq<char>, j: int)
    requires
        0 <= j,
    ensures
        assoc_index(s, k, j) matches Some(i) ==> j <= i < s.len() && s[i].0 == k,
    decreases s.len() - j,
{
    if j < s.len() && s[j].0 != k {
        lemma_assoc_index_found(s, k, j + 1);
    }
}

/// Setting a key gives it the value set and leaves every other key.
proof fn lemma_assoc_set<V>(s: Seq<(Seq<char>, V)>, k: Seq<char>, v: V, other: Seq<char>)
    ensures
        assoc_get(assoc_set(s, k, v), k) == Some(v),
        other != k ==> assoc_get(assoc_set(s, k, v), other) == assoc_get(s, other),
{
    lemma_assoc_index_found(s, k, 0);
    lemma_assoc_index_found(s, other, 0);
    match assoc_index(s, k, 0) {
        Some(i) => {
            lemma_assoc_index_update(s, k, i, (k, v), 0);
            lemma_assoc_index_update(s, other, i, (k, v), 0);
            lemma_assoc_index_found(s.update(i, (k, v)), other, 0);
        },
        None => {
            lemma_assoc_index_push(s, k, (k, v), 0);
            lemma_assoc_index_push(s, other, (k, v), 0);
        },
    }
}

proof fn lemma_key_index_first(t: Seq<(Seq<char>, TomlModel)>, key: Seq<char>, j: int, x: int)
    requires
        0 <= j <= x < t.len(),
        t[x].0 == key,
    ensures
        key_index(t, key, j) matches Some(i) && i <= x,
    decreases x - j,
{
    if t[j].0 != key {
        lemma_key_index_first(t, key, j + 1, x);
    }
}

/// What the snapshot of `notes[..m]` holds for `id`, where `id`'s entry
/// (the only one, keys being distinct) is among them.
pub open spec fn expected_record(notes: Seq<(Seq<char>, TomlModel)>, id: Seq<char>, fields: Seq<MetadataFieldConfig>) -> (
    Option<RecordModel>,
    Option<Seq<char>>,
) {
    match entry_value(notes, id, 0) {
        Some(TomlModel::Table(t)) => match read_error(t, fields) {
            None => (Some(record_of(t)), None),
            Some(e) => (None, Some(record_error_message(e))),
        },
        Some(_) => (None, Some("Invalid metadata for current note"@)),
        None => (None, None),
    }
}

proof fn lemma_snapshot_upto(notes: Seq<(Seq<char>, TomlModel)>, fields: Seq<MetadataFieldConfig>, id: Seq<char>, m: int)
    requires
        0 <= m <= notes.len(),
        forall|a: int, b: int| 0 <= a < b < notes.len() ==> notes[a].0 != notes[b].0,
        note_id_spec(id),
    ensures
        ({
            let (rs, es) = snapshot_upto(notes, fields, m);
            if key_index(notes, id, 0) matches Some(j) && j < m {
                (assoc_get(rs, id), assoc_get(es, id)) == expected_record(notes, id, fields)
            } else {
                assoc_get(rs, id) is None && assoc_get(es, id) is None
            }
        }),
    decreases m,
{
    lemma_key_index_value(notes, id, 0);
    if m > 0 {
        lemma_snapshot_upto(notes, fields, id, m - 1);
        let (rs, es) = snapshot_upto(notes, fields, m - 1);
        let k = notes[m - 1].0;
        if note_id_spec(k) {
            match notes[m - 1].1 {
                TomlModel::Table(t) => {
                    lemma_assoc_set(rs, k, record_of(t), id);
                    if read_error(t, fields) is Some {
                        lemma_assoc_set(es, k, record_error_message(read_error(t, fields)->0), id);
                    }
                },
                _ => {
                    lemma_assoc_set(es, k, "Invalid metadata for current note"@, id);
                },
            }
        }
        if k == id {
            lemma_key_index_first(notes, id, 0, m - 1);
            assert(key_index(notes, id, 0) == Some(m - 1)) by {
                let j = key_index(notes, id, 0)->0;
                if j != m - 1 {
                    assert(notes[j].0 == notes[m - 1].0);
                }
            }
        }
    } else {
        assert(assoc_index(Seq::<(Seq<char>, RecordModel)>::empty(), id, 0) is None);
        assert(assoc_index(Seq::<(Seq<char>, Seq<char>)>::empty(), id, 0) is None);
    }
}

/// In an index whose `notes` keys are distinct, a snapshot answers for a
/// note ID what reading that note's record gives: the record where it
/// passes the read checks, else the check's message; for an entry that is
/// no table, that it is invalid; for none, that it is missing.
pub proof fn law_snapshot_answers_as_read(
    root: Seq<(Seq<char>, TomlModel)>,
    fields: Seq<MetadataFieldConfig>,
    id: Seq<char>,
)
    requires
        notes_of(root) matches Some(n) && forall|a: int, b: int| 0 <= a < b < n.len() ==> n[a].0 != n[b].0,
        note_id_spec(id),
    ensures
        snapshot_of(root, fields) matches Ok(s) && snapshot_lookup(s, id) == match record_table_in(root, id) {
            Ok(t) => match read_error(t, fields) {
                None => Ok(record_of(t)),
                Some(e) => Err(record_error_message(e)),
            },
            Err(_) => if entry_value(notes_of(root)->0, id, 0) is Some {
                Err("Invalid metadata for current note"@)
            } else {
                Err("Missing metadata for current note"@)
            },
        },
{
    let n = notes_of(root)->0;
    lemma_snapshot_upto(n, fields, id, n.len() as int);
    lemma_key_index_value(n, id, 0);
}

// ---------------------------------------------------------------------------
// Positions and references
// ---------------------------------------------------------------------------

proof fn lemma_first_id_match(bs: Seq<u8>, col: int, i: int)
    requires
        0 <= i,
    ensures
        first_id_match(bs, col, i) matches Some(j) ==> i <= j < bs.len() && id_match_at(bs, j, col),
    decreases bs.len() - i,
{
    if i < bs.len() && !id_match_at(bs, i, col) {
        lemma_first_id_match(bs, col, i + 1);
    }
}

/// The ID found under a column of a line is a note ID: ten ASCII digits.
pub proof fn law_found_id_is_note_id(bs: Seq<u8>, col: int)
    ensures
        id_at_col(bs, col) matches Some(id) ==> note_id_spec(id),
{
    lemma_first_id_match(bs, col, 0);
    if let Some(i) = first_id_match(bs, col, 0) {
        let d = bs.subrange(i + 1, i + 11);
        let id = digits_text(d);
        assert forall|k: int| 0 <= k < 10 implies crate::text::is_ascii_digit(#[trigger] id[k]) by {
            assert(is_digit_byte(bs[i + 1 + k]));
            assert(d[k] == bs[i + 1 + k]);
        }
    }
}

/// An LSP position falls within the text: at a char index from 0 to the
/// text's length, so its byte offset is a char boundary of the text.
pub proof fn law_position_within_text(s: Seq<char>, p: Position)
    ensures
        0 <= position_char(s, p) <= s.len(),
{
    let ls = line_start(s, p.line as nat);
    lemma_line_start(s, p.line as nat);
    crate::text::lemma_line_end(s, ls);
    lemma_column_char(s, ls, crate::text::line_end(s, ls), p.character as nat, ls);
}

// ---------------------------------------------------------------------------
// Sorted keys
// ---------------------------------------------------------------------------

proof fn lemma_str_lt_irrefl(a: Seq<char>)
    ensures
        !str_lt(a, a),
    decreases a.len(),
{
    if a.len() > 0 {
        lemma_str_lt_irrefl(a.drop_first());
    }
}

proof fn lemma_str_lt_trans(a: Seq<char>, b: Seq<char>, c: Seq<char>)
    requires
        str_lt(a, b),
        str_lt(b, c),
    ensures
        str_lt(a, c),
    decreases a.len(),
{
    if a.len() > 0 && b.len() > 0 && c.len() > 0 && a[0] == b[0] && b[0] == c[0] {
        lemma_str_lt_trans(a.drop_first(), b.drop_first(), c.drop_first());
    }
}

proof fn lemma_str_lt_total(a: Seq<char>, b: Seq<char>)
    ensures
        str_lt(a, b) || str_lt(b, a) || a == b,
    decreases a.len(),
{
    if a.len() > 0 && b.len() > 0 && a[0] == b[0] {
        lemma_str_lt_total(a.drop_first(), b.drop_first());
        if a.drop_first() == b.drop_first() {
            assert(a =~= seq![a[0]] + a.drop_first());
            assert(b =~= seq![b[0]] + b.drop_first());
        }
    } else if a.len() > 0 && b.len() > 0 {
        vstd::utf8::char_u32_cast(a[0], a[0] as u32);
        vstd::utf8::char_u32_cast(b[0], b[0] as u32);
        assert((a[0] as u32) != (b[0] as u32));
    } else if a.len() == 0 && b.len() == 0 {
        assert(a =~= b);
    }
}

/// Keys in order: no key sorts before a key in front of it.
pub open spec fn keys_sorted(s: Seq<(Seq<char>, TomlModel)>) -> bool {
    forall|i: int, j: int| 0 <= i < j < s.len() ==> !str_lt(#[trigger] s[j].0, #[trigger] s[i].0)
}

proof fn lemma_insert_sorted(s: Seq<(Seq<char>, TomlModel)>, e: (Seq<char>, TomlModel))
    requires
        keys_sorted(s),
    ensures
        keys_sorted(insert_sorted(s, e)),
        insert_sorted(s, e).len() == s.len() + 1,
        forall|k: int| 0 <= k < insert_sorted(s, e).len() ==> #[trigger] insert_sorted(s, e)[k] == e || s.contains(
            insert_sorted(s, e)[k],
        ),
    decreases s.len(),
{
    let r = insert_sorted(s, e);
    if s.len() == 0 {
    } else if str_lt(e.0, s.last().0) {
        let s2 = s.drop_last();
        let last = s.last();
        assert(keys_sorted(s2));
        lemma_insert_sorted(s2, e);
        let r2 = insert_sorted(s2, e);
        assert forall|i: int, j: int| 0 <= i < j < r.len() implies !str_lt(#[trigger] r[j].0, #[trigger] r[i].0) by {
            if j == r.len() - 1 {
                assert(r[j] == last);
                assert(r[i] == r2[i]);
                if r2[i] == e {
                    if str_lt(last.0, e.0) {
                        lemma_str_lt_trans(e.0, last.0, e.0);
                        lemma_str_lt_irrefl(e.0);
                    }
                } else {
                    assert(s2.contains(r2[i]));
                    let t = choose|t: int| 0 <= t < s2.len() && s2[t] == r2[i];
                    assert(s[t] == s2[t]);
                    assert(!str_lt(s[s.len() - 1].0, s[t].0));
                }
            } else {
                assert(r[i] == r2[i] && r[j] == r2[j]);
            }
        }
        assert forall|k: int| 0 <= k < r.len() implies #[trigger] r[k] == e || s.contains(r[k]) by {
            if k == r.len() - 1 {
                assert(s[s.len() - 1] == last);
            } else {
                assert(r[k] == r2[k]);
                if r2[k] != e {
                    let t = choose|t: int| 0 <= t < s2.len() && s2[t] == r2[k];
                    assert(s[t] == s2[t]);
                }
            }
        }
    } else {
        let last = s.last();
        assert forall|i: int, j: int| 0 <= i < j < r.len() implies !str_lt(#[trigger] r[j].0, #[trigger] r[i].0) by {
            if j == r.len() - 1 {
                assert(r[j] == e);
                assert(r[i] == s[i]);
                if str_lt(e.0, s[i].0) {
                    lemma_str_lt_total(s[i].0, last.0);
                    if i < s.len() - 1 {
                        assert(!str_lt(s[s.len() - 1].0, s[i].0));
                    }
                    if str_lt(s[i].0, last.0) {
                        lemma_str_lt_trans(e.0, s[i].0, last.0);
                    }
                }
            } else {
                assert(r[i] == s[i] && r[j] == s[j]);
            }
        }
        assert forall|k: int| 0 <= k < r.len() implies #[trigger] r[k] == e || s.contains(r[k]) by {
            if k < s.len() {
                assert(r[k] == s[k]);
            }
        }
    }
}

proof fn lemma_sort_upto(es: Seq<(Seq<char>, TomlModel)>, n: int)
    requires
        0 <= n <= es.len(),
    ensures
        keys_sorted(sort_upto(es, n)),
        sort_upto(es, n).len() == n,
    decreases n,
{
    if n > 0 {
        lemma_sort_upto(es, n - 1);
        lemma_insert_sorted(sort_upto(es, n - 1), es[n - 1]);
    }
}

/// The index is written with keys in sorted order: the entries that a
/// section writes are sorted by key, and none is lost.
pub proof fn law_sorted_keys(es: Seq<(Seq<char>, TomlModel)>)
    ensures
        keys_sorted(sorted(es)),
        sorted(es).len() == es.len(),
{
    lemma_sort_upto(es, es.len() as int);
}

// ---------------------------------------------------------------------------
// The DSL's union
// ---------------------------------------------------------------------------

proof fn lemma_eval_add_new(acc: Seq<ValueModel>, ys: Seq<ValueModel>, k: int)
    requires
        acc.no_duplicates(),
        0 <= k <= ys.len(),
    ensures
        crate::reconcile::eval::add_new(acc, ys, k).no_duplicates(),
        forall|x: ValueModel| #[trigger] crate::reconcile::eval::add_new(acc, ys, k).contains(x) <==> (acc.contains(x) || ys.skip(k).contains(x)),
    decreases ys.len() - k,
{
    if k < ys.len() {
        if acc.contains(ys[k]) {
            lemma_eval_add_new(acc, ys, k + 1);
        } else {
            lemma_eval_add_new(acc.push(ys[k]), ys, k + 1);
        }
        assert forall|x: ValueModel| ys.skip(k).contains(x) <==> (x == ys[k] || ys.skip(k + 1).contains(x)) by {
            let s0 = ys.skip(k);
            let s1 = ys.skip(k + 1);
            if s0.contains(x) {
                let j = choose|j: int| 0 <= j < s0.len() && s0[j] == x;
                if j > 0 {
                    assert(s1[j - 1] == x);
                }
            }
            if s1.contains(x) {
                let j = choose|j: int| 0 <= j < s1.len() && s1[j] == x;
                assert(s0[j + 1] == x);
            }
            if x == ys[k] {
                assert(s0[0] == x);
            }
        }
        assert forall|x: ValueModel| #[trigger] acc.push(ys[k]).contains(x) <==> (acc.contains(x) || x == ys[k]) by {
            let a1 = acc.push(ys[k]);
            if a1.contains(x) {
                let j = choose|j: int| 0 <= j < a1.len() && a1[j] == x;
                if j < acc.len() {
                    assert(acc[j] == x);
                }
            }
            if acc.contains(x) {
                let j = choose|j: int| 0 <= j < acc.len() && acc[j] == x;
                assert(a1[j] == x);
            }
            if x == ys[k] {
                assert(a1[acc.len() as int] == x);
            }
        }
    } else {
        assert(ys.skip(k) =~= Seq::<ValueModel>::empty());
    }
}

/// `union(xs, ys)` of the DSL holds each element of `xs` and `ys` once,
/// and nothing else.
pub proof fn law_union_no_duplicates(c: Ctx, xs: Seq<ValueModel>, ys: Seq<ValueModel>)
    ensures
        builtin_value(c, "union"@, seq![ValueModel::List(xs), ValueModel::List(ys)]) matches Ok(ValueModel::List(zs)) && zs.no_duplicates()
            && forall|x: ValueModel| #[trigger] zs.contains(x) <==> (xs.contains(x) || ys.contains(x)),
{
    let args = seq![ValueModel::List(xs), ValueModel::List(ys)];
    assert(args[0]->List_0 == xs && args[1]->List_0 == ys);
    reveal_strlit("+");
    reveal_strlit("-");
    reveal_strlit("<");
    reveal_strlit("<=");
    reveal_strlit(">");
    reveal_strlit(">=");
    reveal_strlit("aggregate_status");
    reveal_strlit("all_done");
    reveal_strlit("all_done?");
    reveal_strlit("backlinks");
    reveal_strlit("children");
    reveal_strlit("done?");
    reveal_strlit("empty?");
    reveal_strlit("eq?");
    reveal_strlit("length");
    reveal_strlit("local_checkboxes");
    reveal_strlit("nil?");
    reveal_strlit("none?");
    reveal_strlit("not");
    reveal_strlit("observe_checked");
    reveal_strlit("owner_note");
    reveal_strlit("parent");
    reveal_strlit("targets");
    reveal_strlit("todo?");
    reveal_strlit("wip?");
    reveal_strlit("union");
    assert("union"@ != "+"@) by {
        assert("union"@.len() != "+"@.len() || "union"@[0] != "+"@[0]);
    }
    assert("union"@ != "-"@) by {
        assert("union"@.len() != "-"@.len() || "union"@[0] != "-"@[0]);
    }
    assert("union"@ != "<"@) by {
        assert("union"@.len() != "<"@.len() || "union"@[0] != "<"@[0]);
    }
    assert("union"@ != "<="@) by {
        assert("union"@.len() != "<="@.len() || "union"@[0] != "<="@[0]);
    }
    assert("union"@ != ">"@) by {
        assert("union"@.len() != ">"@.len() || "union"@[0] != ">"@[0]);
    }
    assert("union"@ != ">="@) by {
        assert("union"@.len() != ">="@.len() || "union"@[0] != ">="@[0]);
    }
    assert("union"@ != "aggregate_status"@) by {
        assert("union"@.len() != "aggregate_status"@.len() || "union"@[0] != "aggregate_status"@[0]);
    }
    assert("union"@ != "all_done"@) by {
        assert("union"@.len() != "all_done"@.len() || "union"@[0] != "all_done"@[0]);
    }
    assert("union"@ != "all_done?"@) by {
        assert("union"@.len() != "all_done?"@.len() || "union"@[0] != "all_done?"@[0]);
    }
    assert("union"@ != "backlinks"@) by {
        assert("union"@.len() != "backlinks"@.len() || "union"@[0] != "backlinks"@[0]);
    }
    assert("union"@ != "children"@) by {
        assert("union"@.len() != "children"@.len() || "union"@[0] != "children"@[0]);
    }
    assert("union"@ != "done?"@) by {
        assert("union"@.len() != "done?"@.len() || "union"@[0] != "done?"@[0]);
    }
    assert("union"@ != "empty?"@) by {
        assert("union"@.len() != "empty?"@.len() || "union"@[0] != "empty?"@[0]);
    }
    assert("union"@ != "eq?"@) by {
        assert("union"@.len() != "eq?"@.len() || "union"@[0] != "eq?"@[0]);
    }
    assert("union"@ != "length"@) by {
        assert("union"@.len() != "length"@.len() || "union"@[0] != "length"@[0]);
    }
    assert("union"@ != "local_checkboxes"@) by {
        assert("union"@.len() != "local_checkboxes"@.len() || "union"@[0] != "local_checkboxes"@[0]);
    }
    assert("union"@ != "nil?"@) by {
        assert("union"@.len() != "nil?"@.len() || "union"@[0] != "nil?"@[0]);
    }
    assert("union"@ != "none?"@) by {
        assert("union"@.len() != "none?"@.len() || "union"@[0] != "none?"@[0]);
    }
    assert("union"@ != "not"@) by {
        assert("union"@.len() != "not"@.len() || "union"@[0] != "not"@[0]);
    }
    assert("union"@ != "observe_checked"@) by {
        assert("union"@.len() != "observe_checked"@.len() || "union"@[0] != "observe_checked"@[0]);
    }
    assert("union"@ != "owner_note"@) by {
        assert("union"@.len() != "owner_note"@.len() || "union"@[0] != "owner_note"@[0]);
    }
    assert("union"@ != "parent"@) by {
        assert("union"@.len() != "parent"@.len() || "union"@[0] != "parent"@[0]);
    }
    assert("union"@ != "targets"@) by {
        assert("union"@.len() != "targets"@.len() || "union"@[0] != "targets"@[0]);
    }
    assert("union"@ != "todo?"@) by {
        assert("union"@.len() != "todo?"@.len() || "union"@[0] != "todo?"@[0]);
    }
    assert("union"@ != "wip?"@) by {
        assert("union"@.len() != "wip?"@.len() || "union"@[0] != "wip?"@[0]);
    }
    assert(builtin_value(c, "union"@, args) == Ok::<ValueModel, crate::reconcile::eval::EvalErrorModel>(ValueModel::List(crate::reconcile::eval::add_new(seq![], xs + ys, 0))));

    lemma_eval_add_new(seq![], xs + ys, 0);
    assert((xs + ys).skip(0) =~= xs + ys);
    assert forall|x: ValueModel| (xs + ys).contains(x) <==> (xs.contains(x) || ys.contains(x)) by {
        let zz = xs + ys;
        if zz.contains(x) {
            let j = choose|j: int| 0 <= j < zz.len() && zz[j] == x;
            if j < xs.len() {
                assert(xs[j] == x);
            } else {
                assert(ys[j - xs.len()] == x);
            }
        }
        if xs.contains(x) {
            let j = choose|j: int| 0 <= j < xs.len() && xs[j] == x;
            assert(zz[j] == x);
        }
        if ys.contains(x) {
            let j = choose|j: int| 0 <= j < ys.len() && ys[j] == x;
            assert(zz[xs.len() + j] == x);
        }
    }
}

// ---------------------------------------------------------------------------
// Patches
// ---------------------------------------------------------------------------

proof fn lemma_core_not_user(k: Seq<char>)
    requires
        core_fields().contains(k),
    ensures
        k != "user"@,
{
    reveal_strlit("user");
    reveal_strlit("schema-version");
    reveal_strlit("aliases");
    reveal_strlit("abstract");
    reveal_strlit("keywords");
    reveal_strlit("generated");
    reveal_strlit("checklist-status");
    reveal_strlit("relation");
    reveal_strlit("relation-target");
    assert("user"@ != "schema-version"@) by {
        assert("user"@.len() != "schema-version"@.len() || "user"@[0] != "schema-version"@[0]);
    }
    assert("user"@ != "aliases"@) by {
        assert("user"@.len() != "aliases"@.len() || "user"@[0] != "aliases"@[0]);
    }
    assert("user"@ != "abstract"@) by {
        assert("user"@.len() != "abstract"@.len() || "user"@[0] != "abstract"@[0]);
    }
    assert("user"@ != "keywords"@) by {
        assert("user"@.len() != "keywords"@.len() || "user"@[0] != "keywords"@[0]);
    }
    assert("user"@ != "generated"@) by {
        assert("user"@.len() != "generated"@.len() || "user"@[0] != "generated"@[0]);
    }
    assert("user"@ != "checklist-status"@) by {
        assert("user"@.len() != "checklist-status"@.len() || "user"@[0] != "checklist-status"@[0]);
    }
    assert("user"@ != "relation"@) by {
        assert("user"@.len() != "relation"@.len() || "user"@[0] != "relation"@[0]);
    }
    assert("user"@ != "relation-target"@) by {
        assert("user"@.len() != "relation-target"@.len() || "user"@[0] != "relation-target"@[0]);
    }
    let c = core_fields();
    let i = choose|i: int| 0 <= i < c.len() && c[i] == k;
    assert(c[i] == k);
}

/// A value changed at the entry of its own key leaves the other keys.
proof fn lemma_update_entry(t: Seq<(Seq<char>, TomlModel)>, i: int, e: (Seq<char>, TomlModel), k: Seq<char>)
    requires
        key_index(t, e.0, 0) == Some(i),
    ensures
        entry_value(t.update(i, e), e.0, 0) == Some(e.1),
        k != e.0 ==> entry_value(t.update(i, e), k, 0) == entry_value(t, k, 0),
{
    lemma_key_index_value(t, e.0, 0);
    lemma_key_index_value(t, k, 0);
    lemma_key_index_update(t, e.0, i, e, 0);
    lemma_key_index_update(t, k, i, e, 0);
    lemma_key_index_value(t.update(i, e), e.0, 0);
    lemma_key_index_value(t.update(i, e), k, 0);
}

pub open spec fn is_user_key(k: Seq<char>) -> bool {
    starts_with(k, "user."@)
}

/// No key occurs twice in a patch (a patch is a map of keys to values).
/// Entry `i` is the last among the first `m` entries of the patch with
/// its key.
pub open spec fn last_with_key(p: Seq<(Seq<char>, TomlModel)>, m: int, i: int) -> bool {
    forall|j: int| i < j < m ==> p[j].0 != p[i].0
}

/// What the first `m` entries of a patch leave: each key set where it goes,
/// to the value of its last entry,
/// every other top-level key (but `user`) as it was, and every unpatched key
/// of a `user` table that was there as it was.
pub open spec fn patch_effect(
    t: Seq<(Seq<char>, TomlModel)>,
    p: Seq<(Seq<char>, TomlModel)>,
    m: int,
    t2: Seq<(Seq<char>, TomlModel)>,
) -> bool {
    &&& forall|i: int|
        0 <= i < m && last_with_key(p, m, i) ==> if is_user_key(#[trigger] p[i].0) {
            entry_value(t2, "user"@, 0) matches Some(TomlModel::Table(u)) && entry_value(u, p[i].0.skip(5), 0) == Some(
                p[i].1,
            )
        } else {
            entry_value(t2, p[i].0, 0) == Some(p[i].1)
        }
    &&& forall|k: Seq<char>|
        k != "user"@ && (forall|i: int| 0 <= i < m ==> !(#[trigger] p[i].0 == k && !is_user_key(k))) ==> #[trigger] entry_value(
            t2,
            k,
            0,
        ) == entry_value(t, k, 0)
    &&& match entry_value(t, "user"@, 0) {
        Some(TomlModel::Table(u0)) => entry_value(t2, "user"@, 0) matches Some(TomlModel::Table(u2)) && forall|x: Seq<char>|
            (forall|i: int| 0 <= i < m ==> !(is_user_key(#[trigger] p[i].0) && p[i].0.skip(5) == x)) ==> #[trigger] entry_value(
                u2,
                x,
                0,
            ) == entry_value(u0, x, 0),
        _ => true,
    }
}

proof fn lemma_patch_entries_ok(
    t: Seq<(Seq<char>, TomlModel)>,
    p: Seq<(Seq<char>, TomlModel)>,
    fields: Seq<MetadataFieldConfig>,
    m: int,
)
    requires
        0 <= m <= p.len(),
        patch_upto(t, p, fields, m).1 is None,
    ensures
        forall|i: int| 0 <= i < m ==> #[trigger] patch_entry_error(p[i].0, p[i].1, fields) is None,
    decreases m,
{
    if m > 0 {
        if patch_upto(t, p, fields, m - 1).1 is Some {
            assert(patch_upto(t, p, fields, m).1 is Some);
        }
        lemma_patch_entries_ok(t, p, fields, m - 1);
    }
}

proof fn lemma_patch_effect(
    t: Seq<(Seq<char>, TomlModel)>,
    p: Seq<(Seq<char>, TomlModel)>,
    fields: Seq<MetadataFieldConfig>,
    m: int,
)
    requires
        0 <= m <= p.len(),
        patch_upto(t, p, fields, m).1 is None,
    ensures
        patch_effect(t, p, m, patch_upto(t, p, fields, m).0),
    decreases m,
{
    reveal_strlit("user.");
    lemma_patch_entries_ok(t, p, fields, m);
    if m > 0 {
        let (cur, e0) = patch_upto(t, p, fields, m - 1);
        if e0 is Some {
            assert(patch_upto(t, p, fields, m).1 is Some);
        }
        lemma_patch_effect(t, p, fields, m - 1);
        let key = p[m - 1].0;
        let v = p[m - 1].1;
        assert(patch_entry_error(key, v, fields) is None);
        let next = patch_upto(t, p, fields, m).0;
        assert(patch_step(cur, key, v) == Ok::<_, crate::metadata::records::RecordErrorModel>(next));
        if !is_user_key(key) {
            assert(core_fields().contains(key));
            lemma_core_not_user(key);
            assert(next == table_set(cur, key, v));
            assert forall|i: int| 0 <= i < m && last_with_key(p, m, i) implies if is_user_key(#[trigger] p[i].0) {
                entry_value(next, "user"@, 0) matches Some(TomlModel::Table(u)) && entry_value(u, p[i].0.skip(5), 0) == Some(
                    p[i].1,
                )
            } else {
                entry_value(next, p[i].0, 0) == Some(p[i].1)
            } by {
                lemma_table_set(cur, key, v, "user"@);
                if i < m - 1 {
                    assert(p[m - 1].0 != p[i].0);
                    assert(last_with_key(p, m - 1, i));
                    lemma_table_set(cur, key, v, p[i].0);
                } else {
                    lemma_table_set(cur, key, v, key);
                }
            }
            assert forall|k: Seq<char>|
                k != "user"@ && (forall|i: int| 0 <= i < m ==> !(#[trigger] p[i].0 == k && !is_user_key(k))) implies #[trigger] entry_value(
                next,
                k,
                0,
            ) == entry_value(t, k, 0) by {
                assert(!(p[m - 1].0 == k && !is_user_key(k)));
                lemma_table_set(cur, key, v, k);
                assert forall|i: int| 0 <= i < m - 1 implies !(#[trigger] p[i].0 == k && !is_user_key(k)) by {}
            }
            lemma_table_set(cur, key, v, "user"@);
        } else {
            let uk = key.skip(5);
            lemma_key_index_value(cur, "user"@, 0);
            let (nu, ne) = match key_index(cur, "user"@, 0) {
                None => {
                    let inner = table_set(seq![], uk, v);
                    lemma_table_set(seq![], uk, v, uk);
                    (inner, table_set(cur, "user"@, TomlModel::Table(inner)))
                },
                Some(j) => {
                    let es = cur[j].1->Table_0;
                    (table_set(es, uk, v), cur.update(j, ("user"@, TomlModel::Table(table_set(es, uk, v)))))
                },
            };
            assert(next == ne);
            // The user table after the step, and the other keys.
            assert(entry_value(next, "user"@, 0) == Some(TomlModel::Table(nu))) by {
                match key_index(cur, "user"@, 0) {
                    None => {
                        lemma_table_set(cur, "user"@, TomlModel::Table(nu), "user"@);
                    },
                    Some(j) => {
                        lemma_update_entry(cur, j, ("user"@, TomlModel::Table(nu)), "user"@);
                    },
                }
            }
            assert forall|k: Seq<char>| k != "user"@ implies #[trigger] entry_value(next, k, 0) == entry_value(cur, k, 0) by {
                match key_index(cur, "user"@, 0) {
                    None => {
                        lemma_table_set(cur, "user"@, TomlModel::Table(nu), k);
                    },
                    Some(j) => {
                        lemma_update_entry(cur, j, ("user"@, TomlModel::Table(nu)), k);
                    },
                }
            }
            // The old user table, where there was one.
            let ou = match entry_value(cur, "user"@, 0) {
                Some(TomlModel::Table(es)) => es,
                _ => seq![],
            };
            assert(nu == table_set(ou, uk, v)) by {
                match key_index(cur, "user"@, 0) {
                    None => {},
                    Some(j) => {
                        assert(cur[j].1 is Table);
                    },
                }
            }
            assert forall|x: Seq<char>| x != uk implies #[trigger] entry_value(nu, x, 0) == entry_value(ou, x, 0) by {
                lemma_table_set(ou, uk, v, x);
            }
            lemma_table_set(ou, uk, v, uk);
            assert forall|i: int| 0 <= i < m && last_with_key(p, m, i) implies if is_user_key(#[trigger] p[i].0) {
                entry_value(next, "user"@, 0) matches Some(TomlModel::Table(u)) && entry_value(u, p[i].0.skip(5), 0) == Some(
                    p[i].1,
                )
            } else {
                entry_value(next, p[i].0, 0) == Some(p[i].1)
            } by {
                if i < m - 1 {
                    assert(p[m - 1].0 != p[i].0);
                    assert(last_with_key(p, m - 1, i));
                    assert(p[i].0 != key);
                    if is_user_key(p[i].0) {
                        if p[i].0.skip(5) == uk {
                            assert(p[i].0 =~= p[i].0.take(5) + p[i].0.skip(5));
                            assert(key =~= key.take(5) + key.skip(5));
                        }
                    } else {
                        if p[i].0 == "user"@ {
                            assert(patch_entry_error(p[i].0, p[i].1, fields) is None);
                            assert(core_fields().contains(p[i].0));
                            lemma_core_not_user(p[i].0);
                        }
                    }
                }
            }
            assert forall|k: Seq<char>|
                k != "user"@ && (forall|i: int| 0 <= i < m ==> !(#[trigger] p[i].0 == k && !is_user_key(k))) implies #[trigger] entry_value(
                next,
                k,
                0,
            ) == entry_value(t, k, 0) by {
                assert forall|i: int| 0 <= i < m - 1 implies !(#[trigger] p[i].0 == k && !is_user_key(k)) by {}
            }
            if let Some(TomlModel::Table(u0)) = entry_value(t, "user"@, 0) {
                assert forall|x: Seq<char>|
                    (forall|i: int| 0 <= i < m ==> !(is_user_key(#[trigger] p[i].0) && p[i].0.skip(5) == x)) implies #[trigger] entry_value(
                    nu,
                    x,
                    0,
                ) == entry_value(u0, x, 0) by {
                    assert(!(is_user_key(p[m - 1].0) && p[m - 1].0.skip(5) == x));
                    assert forall|i: int| 0 <= i < m - 1 implies !(is_user_key(#[trigger] p[i].0) && p[i].0.skip(5) == x) by {}
                }
            }
        }
    }
}

/// A patch that is applied without error sets every patched key (a `user.`
/// key in the `user` table) to the value of its last entry, and keeps every
/// other top-level key and every unpatched key of an existing `user` table.
pub proof fn law_patch_sets_and_keeps(
    t: Seq<(Seq<char>, TomlModel)>,
    p: Seq<(Seq<char>, TomlModel)>,
    fields: Seq<MetadataFieldConfig>,
)
    requires
        patch_upto(t, p, fields, p.len() as int).1 is None,
    ensures
        patch_effect(t, p, p.len() as int, patch_upto(t, p, fields, p.len() as int).0),
{
    lemma_patch_effect(t, p, fields, p.len() as int);
}

// ---------------------------------------------------------------------------
// Solving done states
// ---------------------------------------------------------------------------

/// Every one of `rounds` rounds from `cur` changes the component's values.
pub open spec fn changes_every_round(
    ks: Seq<NoteSource>,
    nodes: Seq<Seq<char>>,
    scc: Seq<usize>,
    g: Map<Seq<char>, bool>,
    cur: Seq<bool>,
    rounds: nat,
) -> bool
    decreases rounds,
{
    if rounds == 0 {
        true
    } else {
        let nv = round_values(ks, scc, overlay(g, component_ids(nodes, scc), cur, scc.len() as int));
        nv != cur && changes_every_round(ks, nodes, scc, g, nv, (rounds - 1) as nat)
    }
}

proof fn lemma_iterate_fixed_point(
    ks: Seq<NoteSource>,
    nodes: Seq<Seq<char>>,
    scc: Seq<usize>,
    g: Map<Seq<char>, bool>,
    cur: Seq<bool>,
    rounds: nat,
)
    ensures
        ({
            let r = iterate(ks, nodes, scc, g, cur, rounds);
            round_values(ks, scc, overlay(g, component_ids(nodes, scc), r, scc.len() as int)) == r
                || changes_every_round(ks, nodes, scc, g, cur, rounds)
        }),
    decreases rounds,
{
    if rounds > 0 {
        let nv = round_values(ks, scc, overlay(g, component_ids(nodes, scc), cur, scc.len() as int));
        if nv != cur {
            lemma_iterate_fixed_point(ks, nodes, scc, g, nv, (rounds - 1) as nat);
        }
    }
}

/// The done states solved for a component satisfy its equations: each
/// node's state is what its note gives under the states solved so far and
/// the component's own; unless every one of the rounds allowed changed the
/// states, in which case the solver stops at the last round's states.
pub proof fn law_component_fixed_point(
    ks: Seq<NoteSource>,
    nodes: Seq<Seq<char>>,
    scc: Seq<usize>,
    g: Map<Seq<char>, bool>,
)
    ensures
        ({
            let r = solve_component(ks, nodes, scc, g);
            round_values(ks, scc, overlay(g, component_ids(nodes, scc), r, scc.len() as int)) == r
                || changes_every_round(ks, nodes, scc, g, Seq::new(scc.len(), |p: int| false), MAX_SCC_ROUNDS as nat)
        }),
{
    lemma_iterate_fixed_point(ks, nodes, scc, g, Seq::new(scc.len(), |p: int| false), MAX_SCC_ROUNDS as nat);
}

// ---------------------------------------------------------------------------
// Filtered references
// ---------------------------------------------------------------------------

/// With `@` no decimal digit, the scan finds every `@ID` of a line: no
/// match can hide another.
proof fn lemma_match_found(s: Seq<char>, p: int, q: int)
    requires
        !is_decimal_digit('@'),
        0 <= p <= q,
        crate::parser::id_match_at(s, q, '@', false),
    ensures
        id_matches_from(s, p, '@', false).contains(q),
    decreases s.len() - p,
{
    let r = id_matches_from(s, p, '@', false);
    if p == q {
        assert(r[0] == q);
    } else if crate::parser::id_match_at(s, p, '@', false) {
        if q < p + 11 {
            assert(is_decimal_digit(s[p + (q - p)]));
        }
        lemma_match_found(s, p + 11, q);
        let rest = id_matches_from(s, p + 11, '@', false);
        let k = choose|k: int| 0 <= k < rest.len() && rest[k] == q;
        assert(r[k + 1] == q);
    } else {
        lemma_match_found(s, p + 1, q);
    }
}

/// Every reference of a stretch `line[a..b]` is a reference of the whole
/// line, with the same ID and offsets.
proof fn lemma_segment_ref_in_line(line: Seq<char>, a: int, b: int, idx: int, x: RefModel)
    requires
        !is_decimal_digit('@'),
        0 <= a <= b <= line.len(),
        segment_refs(line, a, b, idx).contains(x),
    ensures
        segment_refs(line, 0, line.len() as int, idx).contains(x),
{
    let seg = line.subrange(a, b);
    let ms = id_matches_from(seg, 0, '@', false);
    let k = choose|k: int| 0 <= k < segment_refs(line, a, b, idx).len() && segment_refs(line, a, b, idx)[k] == x;
    lemma_id_matches_from_bounds(seg, 0, '@', false);
    let q = ms[k];
    assert(crate::parser::id_match_at(seg, q, '@', false));
    assert(crate::parser::id_match_at(line, a + q, '@', false)) by {
        assert forall|j: int| 1 <= j <= 10 implies is_decimal_digit(#[trigger] line[a + q + j]) by {
            assert(seg[q + j] == line[a + q + j]);
        }
        assert(seg[q] == line[a + q]);
    }
    let whole = line.subrange(0, line.len() as int);
    assert(whole =~= line);
    lemma_match_found(line, 0, a + q);
    let wm = id_matches_from(line, 0, '@', false);
    let k2 = choose|k2: int| 0 <= k2 < wm.len() && wm[k2] == a + q;
    let y = segment_refs(line, 0, line.len() as int, idx)[k2];
    assert(line.take(0) =~= Seq::<char>::empty());
    assert(line.take(a + q) =~= line.take(a) + seg.take(q));
    assert(line.take(a + q + 11) =~= line.take(a) + seg.take(q + 11));
    crate::text::lemma_utf8_len_concat(line.take(a), seg.take(q));
    crate::text::lemma_utf8_len_concat(line.take(a), seg.take(q + 11));
    assert(whole.take(a + q) =~= line.take(a + q));
    assert(whole.take(a + q + 11) =~= line.take(a + q + 11));
    assert(seg.subrange(q + 1, q + 11) =~= line.subrange(a + q + 1, a + q + 11));
    assert(y == x);
}

/// The segments of a line outside comments lie within the line.
proof fn lemma_comment_segments_bounds(line: Seq<char>, pos: int)
    requires
        0 <= pos <= line.len(),
    ensures
        forall|k: int|
            0 <= k < comment_segments(line, pos).0.len() ==> {
                let sg = #[trigger] comment_segments(line, pos).0[k];
                pos <= sg.0 <= sg.1 <= line.len()
            },
    decreases line.len() - pos,
{
    lemma_find_from(line, pos, open_comment());
    if let Some(b) = find_from(line, pos, open_comment()) {
        lemma_find_from(line, b + 2, close_comment());
        if let Some(e) = find_from(line, b + 2, close_comment()) {
            lemma_comment_segments_bounds(line, e + 2);
            let r = comment_segments(line, e + 2);
            assert forall|k: int|
                0 <= k < comment_segments(line, pos).0.len() implies {
                    let sg = #[trigger] comment_segments(line, pos).0[k];
                    pos <= sg.0 <= sg.1 <= line.len()
                } by {
                if k > 0 {
                    assert(comment_segments(line, pos).0[k] == r.0[k - 1]);
                }
            }
        }
    }
}

proof fn lemma_segs_refs_in_line(line: Seq<char>, segs: Seq<(int, int)>, idx: int, x: RefModel)
    requires
        !is_decimal_digit('@'),
        forall|k: int| 0 <= k < segs.len() ==> 0 <= (#[trigger] segs[k]).0 <= segs[k].1 <= line.len(),
        segs_refs(line, segs, idx).contains(x),
    ensures
        segment_refs(line, 0, line.len() as int, idx).contains(x),
    decreases segs.len(),
{
    if segs.len() > 0 {
        let pre = segs_refs(line, segs.drop_last(), idx);
        let last = segment_refs(line, segs.last().0, segs.last().1, idx);
        let k = choose|k: int| 0 <= k < (pre + last).len() && (pre + last)[k] == x;
        assert(segs[segs.len() - 1] == segs.last());
        if k < pre.len() {
            assert(pre[k] == x);
            assert forall|j: int| 0 <= j < segs.drop_last().len() implies 0 <= (#[trigger] segs.drop_last()[j]).0
                <= segs.drop_last()[j].1 <= line.len() by {
                assert(segs.drop_last()[j] == segs[j]);
            }
            lemma_segs_refs_in_line(line, segs.drop_last(), idx, x);
        } else {
            assert(last[k - pre.len()] == x);
            lemma_segment_ref_in_line(line, segs.last().0, segs.last().1, idx, x);
        }
    }
}

proof fn lemma_filtered_line_in_line(line: Seq<char>, idx: int, bc: bool, fence: bool, x: RefModel)
    requires
        !is_decimal_digit('@'),
        filtered_line(line, idx, bc, fence).0.contains(x),
    ensures
        segment_refs(line, 0, line.len() as int, idx).contains(x),
{
    if bc {
        lemma_find_from(line, 0, close_comment());
        if let Some(e) = find_from(line, 0, close_comment()) {
            lemma_comment_segments_bounds(line, e + 2);
            let segs = comment_segments(line, e + 2).0;
            assert forall|k: int| 0 <= k < segs.len() implies 0 <= (#[trigger] segs[k]).0 <= segs[k].1 <= line.len() by {
                assert(segs[k] == comment_segments(line, e + 2).0[k]);
            }
            lemma_segs_refs_in_line(line, segs, idx, x);
        }
    } else if !crate::parser::is_fence(line) && !fence {
        lemma_comment_segments_bounds(line, 0);
        let segs = comment_segments(line, 0).0;
        assert forall|k: int| 0 <= k < segs.len() implies 0 <= (#[trigger] segs[k]).0 <= segs[k].1 <= line.len() by {
            assert(segs[k] == comment_segments(line, 0).0[k]);
        }
        lemma_segs_refs_in_line(line, segs, idx, x);
    }
}

proof fn lemma_filtered_upto_in_refs(ls: Seq<Seq<char>>, n: int, x: RefModel)
    requires
        !is_decimal_digit('@'),
        0 <= n <= ls.len(),
        filtered_upto(ls, n).0.contains(x),
    ensures
        refs_upto(ls, n).contains(x),
    decreases n,
{
    if n > 0 {
        let p = filtered_upto(ls, n - 1);
        let r = filtered_line(ls[n - 1], n - 1, p.1, p.2);
        let k = choose|k: int| 0 <= k < (p.0 + r.0).len() && (p.0 + r.0)[k] == x;
        let pre = refs_upto(ls, n - 1);
        let cur = segment_refs(ls[n - 1], 0, ls[n - 1].len() as int, n - 1);
        if k < p.0.len() {
            assert(p.0[k] == x);
            lemma_filtered_upto_in_refs(ls, n - 1, x);
            let j = choose|j: int| 0 <= j < pre.len() && pre[j] == x;
            assert((pre + cur)[j] == x);
        } else {
            assert(r.0[k - p.0.len()] == x);
            lemma_filtered_line_in_line(ls[n - 1], n - 1, p.1, p.2, x);
            let j = choose|j: int| 0 <= j < cur.len() && cur[j] == x;
            assert((pre + cur)[pre.len() + j] == x);
        }
    }
}

/// Every reference found outside comments and fences is one of the
/// references of the whole content, with the same ID, line and offsets;
/// given that `@` is no decimal digit (as Unicode has it, which the `regex`
/// crate's `\d` follows).
pub proof fn law_filtered_refs_are_refs(content: Seq<char>, x: RefModel)
    requires
        !is_decimal_digit('@'),
        filtered_refs(content).contains(x),
    ensures
        refs_upto(crate::text::lines(content), crate::text::lines(content).len() as int).contains(x),
{
    let ls = crate::text::lines(content);
    lemma_filtered_upto_in_refs(ls, ls.len() as int, x);
}

} // verus!
