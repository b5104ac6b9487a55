//! Cycle detection on the task dependency graph: Tarjan's strongly
//! connected components, confirmed against the graph's reachability, and
//! the report of the cycles found.
use vstd::prelude::*;
use crate::dependency_graph::{occ_models, CycleEdgeOccurrence, DependencyGraph, GraphModel, OccModel};
use crate::reach::{checked_components, confirm_components, is_scc_partition};

verus! {

/// Node indices that form a cycle, and the edge occurrences inside it.
#[derive(Debug)]
pub struct DependencyCycle {
    /// Note IDs forming the cycle.
    pub nodes: Vec<String>,
    /// Occurrences whose both endpoints lie in the cycle.
    pub edges: Vec<CycleEdgeOccurrence>,
}

// ---------------------------------------------------------------------------
// Tarjan's algorithm, as a state machine
// ---------------------------------------------------------------------------

/// Tarjan's state: discovery indices, lowlinks, the stack, the components.
pub struct TState {
    pub index: Seq<Option<usize>>,
    pub low: Seq<usize>,
    pub on: Seq<bool>,
    pub stack: Seq<usize>,
    pub sccs: Seq<Seq<usize>>,
    pub counter: nat,
}

/// The neighbours of node `v` (none for a node without a row).
pub open spec fn succ(adj: Seq<Seq<usize>>, v: int) -> Seq<usize> {
    if 0 <= v < adj.len() {
        adj[v]
    } else {
        seq![]
    }
}

pub open spec fn min(a: usize, b: usize) -> usize {
    if a <= b {
        a
    } else {
        b
    }
}

/// Pops the stack down to and including `v`, into `scc`.
pub open spec fn pop_until(st: TState, v: usize, scc: Seq<usize>) -> TState
    decreases st.stack.len(),
{
    if st.stack.len() == 0 {
        TState { sccs: st.sccs.push(scc), ..st }
    } else {
        let w = st.stack.last();
        let st2 = TState { stack: st.stack.drop_last(), on: st.on.update(w as int, false), ..st };
        if w == v {
            TState { sccs: st2.sccs.push(scc.push(w)), ..st2 }
        } else {
            pop_until(st2, v, scc.push(w))
        }
    }
}

/// Visits node `v`: Tarjan's `strongconnect`.
pub open spec fn strongconnect(adj: Seq<Seq<usize>>, n: nat, st: TState, v: usize, fuel: nat) -> TState
    decreases fuel, 1int, 0int,
{
    if fuel == 0 || st.counter >= usize::MAX {
        st
    } else {
        let c = st.counter as usize;
        let s1 = TState {
            index: st.index.update(v as int, Some(c)),
            low: st.low.update(v as int, c),
            on: st.on.update(v as int, true),
            stack: st.stack.push(v),
            counter: st.counter + 1,
            ..st
        };
        let s2 = neighbors(adj, n, s1, v, 0, fuel);
        if s2.index[v as int] == Some(s2.low[v as int]) {
            pop_until(s2, v, seq![])
        } else {
            s2
        }
    }
}

/// Handles the neighbours `succ(adj, v)[k..]` of node `v`.
pub open spec fn neighbors(adj: Seq<Seq<usize>>, n: nat, st: TState, v: usize, k: int, fuel: nat) -> TState
    decreases fuel, 0int, succ(adj, v as int).len() - k,
{
    let ns = succ(adj, v as int);
    if k < 0 || k >= ns.len() || fuel == 0 {
        st
    } else {
        let w = ns[k];
        let st2 = if w >= n {
            st
        } else if st.index[w as int] is None {
            let s = strongconnect(adj, n, st, w, (fuel - 1) as nat);
            TState { low: s.low.update(v as int, min(s.low[v as int], s.low[w as int])), ..s }
        } else if st.on[w as int] {
            TState { low: st.low.update(v as int, min(st.low[v as int], st.index[w as int]->0)), ..st }
        } else {
            st
        };
        neighbors(adj, n, st2, v, k + 1, fuel)
    }
}

/// `a` sorts before `b` (char by char, then by length).
pub open spec fn str_lt(a: Seq<char>, b: Seq<char>) -> bool
    decreases a.len(),
{
    if a.len() == 0 {
        b.len() > 0
    } else if b.len() == 0 {
        false
    } else if a[0] != b[0] {
        (a[0] as u32) < (b[0] as u32)
    } else {
        str_lt(a.drop_first(), b.drop_first())
    }
}

/// The unvisited node among `k..` with the least ID (the first such on ties).
pub open spec fn least_unvisited(ids: Seq<Seq<char>>, index: Seq<Option<usize>>, k: int) -> Option<int>
    decreases ids.len() - k,
{
    if k < 0 || k >= ids.len() {
        None
    } else {
        match least_unvisited(ids, index, k + 1) {
            None => if index[k] is None {
                Some(k)
            } else {
                None
            },
            Some(j) => if index[k] is None && !str_lt(ids[j], ids[k]) {
                Some(k)
            } else {
                Some(j)
            },
        }
    }
}

/// Starts a search from the least unvisited node, at most `rounds` times:
/// the nodes are visited in ID order.
pub open spec fn roots(adj: Seq<Seq<usize>>, ids: Seq<Seq<char>>, st: TState, rounds: nat) -> TState
    decreases rounds,
{
    if rounds == 0 {
        st
    } else {
        match least_unvisited(ids, st.index, 0) {
            None => st,
            Some(u) => roots(
                adj,
                ids,
                strongconnect(adj, ids.len() as nat, st, u as usize, ids.len() as nat),
                (rounds - 1) as nat,
            ),
        }
    }
}

pub open spec fn initial_state(n: nat) -> TState {
    TState {
        index: Seq::new(n, |i: int| None),
        low: Seq::new(n, |i: int| usize::MAX),
        on: Seq::new(n, |i: int| false),
        stack: seq![],
        sccs: seq![],
        counter: 0,
    }
}

/// The components that Tarjan's algorithm completes on the graph over the
/// nodes `ids` with the rows `adj`, in the order it completes them.
pub open spec fn tarjan_run(ids: Seq<Seq<char>>, adj: Seq<Seq<usize>>) -> Seq<Seq<usize>> {
    roots(adj, ids, initial_state(ids.len()), ids.len()).sccs
}

/// The strongly connected components of the graph over the nodes `ids`
/// with the rows `adj`: Tarjan's components, in the order Tarjan's
/// algorithm completes them, where they pass the check against the graph's
/// reachability (`is_scc_partition`); else the components by least member.
pub open spec fn sccs_of(ids: Seq<Seq<char>>, adj: Seq<Seq<usize>>) -> Seq<Seq<usize>> {
    checked_components(tarjan_run(ids, adj), adj, ids.len())
}

/// The strongly connected components of a graph.
pub open spec fn components(g: GraphModel) -> Seq<Seq<usize>> {
    sccs_of(g.nodes, g.adj)
}

/// A component is a cycle: more than one node, or a node with an edge to
/// itself.
pub open spec fn is_cycle(g: GraphModel, scc: Seq<usize>) -> bool {
    scc.len() > 1 || (scc.len() == 1 && succ(g.adj, scc[0] as int).contains(scc[0]))
}

/// The IDs of a component's nodes.
pub open spec fn scc_ids(g: GraphModel, scc: Seq<usize>) -> Seq<Seq<char>> {
    scc.map_values(|i: usize| g.nodes[i as int])
}

/// The occurrences among `occs[..k]` whose endpoints are both among `ids`.
pub open spec fn inner_upto(occs: Seq<OccModel>, ids: Seq<Seq<char>>, k: int) -> Seq<OccModel>
    decreases k,
{
    if k <= 0 {
        seq![]
    } else if ids.contains(occs[k - 1].from) && ids.contains(occs[k - 1].to) {
        inner_upto(occs, ids, k - 1).push(occs[k - 1])
    } else {
        inner_upto(occs, ids, k - 1)
    }
}

pub open spec fn inner_occs(occs: Seq<OccModel>, ids: Seq<Seq<char>>) -> Seq<OccModel> {
    inner_upto(occs, ids, occs.len() as int)
}

pub struct CycleModel {
    pub nodes: Seq<Seq<char>>,
    pub edges: Seq<OccModel>,
}

impl View for DependencyCycle {
    type V = CycleModel;

    open spec fn view(&self) -> CycleModel {
        CycleModel { nodes: crate::reconcile::ast::names(self.nodes@), edges: occ_models(self.edges@) }
    }
}

/// The cycles among the first `k` components.
pub open spec fn cycles_upto(g: GraphModel, sccs: Seq<Seq<usize>>, k: int) -> Seq<CycleModel>
    decreases k,
{
    if k <= 0 {
        seq![]
    } else if is_cycle(g, sccs[k - 1]) {
        cycles_upto(g, sccs, k - 1).push(
            CycleModel { nodes: scc_ids(g, sccs[k - 1]), edges: inner_occs(g.occs, scc_ids(g, sccs[k - 1])) },
        )
    } else {
        cycles_upto(g, sccs, k - 1)
    }
}

/// The cycles of a graph.
pub open spec fn cycles_of(g: GraphModel) -> Seq<CycleModel> {
    let sccs = components(g);
    cycles_upto(g, sccs, sccs.len() as int)
}


// ---------------------------------------------------------------------------
// Executable algorithm
// ---------------------------------------------------------------------------

struct Tarjan {
    index: Vec<Option<usize>>,
    low: Vec<usize>,
    on: Vec<bool>,
    stack: Vec<usize>,
    sccs: Vec<Vec<usize>>,
    counter: usize,
}

impl View for Tarjan {
    type V = TState;

    closed spec fn view(&self) -> TState {
        TState {
            index: self.index@,
            low: self.low@,
            on: self.on@,
            stack: self.stack@,
            sccs: crate::dependency_graph::rows(self.sccs@),
            counter: self.counter as nat,
        }
    }
}

/// The arrays cover the `n` nodes and the stack holds nodes.
pub open spec fn tarjan_wf(st: TState, n: nat) -> bool {
    &&& st.index.len() == n
    &&& st.low.len() == n
    &&& st.on.len() == n
    &&& forall|k: int| 0 <= k < st.stack.len() ==> #[trigger] st.stack[k] < n
    &&& forall|i: int, j: int| 0 <= i < st.sccs.len() && 0 <= j < st.sccs[i].len() ==> #[trigger] st.sccs[i][j] < n
}

fn pop_component(st: &mut Tarjan, v: usize, Ghost(n): Ghost<nat>)
    requires
        tarjan_wf(old(st)@, n),
    ensures
        final(st)@ == pop_until(old(st)@, v, seq![]),
        tarjan_wf(final(st)@, n),
{
    let mut scc: Vec<usize> = Vec::new();
    let ghost target = pop_until(st@, v, seq![]);
    loop
        invariant
            tarjan_wf(st@, n),
            forall|j: int| 0 <= j < scc.len() ==> #[trigger] scc@[j] < n,
            target == pop_until(old(st)@, v, seq![]),
            target == pop_until(st@, v, scc@),
        decreases st.stack.len(),
    {
        let ghost before = st@;
        match st.stack.pop() {
            None => {
                st.sccs.push(scc);
                assert(st@.sccs =~= before.sccs.push(scc@));
                return;
            },
            Some(w) => {
                assert(w == before.stack.last());
                st.on.set(w, false);
                let ghost after_pop = st@;
                assert(after_pop.stack =~= before.stack.drop_last());
                assert(after_pop.on =~= before.on.update(w as int, false));
                assert(after_pop == TState {
                    stack: before.stack.drop_last(),
                    on: before.on.update(w as int, false),
                    ..before
                });
                scc.push(w);
                if w == v {
                    st.sccs.push(scc);
                    assert(st@.sccs =~= after_pop.sccs.push(scc@));
                    return;
                }
            },
        }
    }
}


fn strong_connect(adj: &Vec<Vec<usize>>, n: usize, st: &mut Tarjan, v: usize, fuel: usize)
    requires
        tarjan_wf(old(st)@, n as nat),
        v < n,
    ensures
        final(st)@ == strongconnect(crate::dependency_graph::rows(adj@), n as nat, old(st)@, v, fuel as nat),
        tarjan_wf(final(st)@, n as nat),
    decreases fuel, 1int, 0int,
{
    if fuel == 0 || st.counter == usize::MAX {
        return;
    }
    let c = st.counter;
    let ghost s0 = st@;
    st.index.set(v, Some(c));
    st.low.set(v, c);
    st.on.set(v, true);
    st.stack.push(v);
    st.counter = c + 1;
    proof {
        assert(st@.index =~= s0.index.update(v as int, Some(c)));
        assert(st@.low =~= s0.low.update(v as int, c));
        assert(st@.on =~= s0.on.update(v as int, true));
        assert(st@.stack =~= s0.stack.push(v));
        assert(st@ == TState {
            index: s0.index.update(v as int, Some(c)),
            low: s0.low.update(v as int, c),
            on: s0.on.update(v as int, true),
            stack: s0.stack.push(v),
            counter: s0.counter + 1,
            ..s0
        });
    }
    visit_neighbors(adj, n, st, v, fuel);
    if st.index[v] == Some(st.low[v]) {
        pop_component(st, v, Ghost(n as nat));
    }
}

fn visit_neighbors(adj: &Vec<Vec<usize>>, n: usize, st: &mut Tarjan, v: usize, fuel: usize)
    requires
        tarjan_wf(old(st)@, n as nat),
        v < n,
    ensures
        final(st)@ == neighbors(crate::dependency_graph::rows(adj@), n as nat, old(st)@, v, 0, fuel as nat),
        tarjan_wf(final(st)@, n as nat),
    decreases fuel, 0int, succ(crate::dependency_graph::rows(adj@), v as int).len(),
{
    let ghost a = crate::dependency_graph::rows(adj@);
    let ghost target = neighbors(a, n as nat, st@, v, 0, fuel as nat);
    if fuel == 0 || v >= adj.len() {
        return;
    }
    assert(succ(a, v as int) == adj@[v as int]@);
    let mut k: usize = 0;
    while k < adj[v].len()
        invariant
            k <= adj@[v as int].len(),
            v < adj.len(),
            v < n,
            fuel > 0,
            a == crate::dependency_graph::rows(adj@),
            succ(a, v as int) == adj@[v as int]@,
            tarjan_wf(st@, n as nat),
            target == neighbors(a, n as nat, old(st)@, v, 0, fuel as nat),
            target == neighbors(a, n as nat, st@, v, k as int, fuel as nat),
        decreases adj@[v as int].len() - k,
    {
        let w = adj[v][k];
        if w < n {
            match st.index[w] {
                None => {
                    strong_connect(adj, n, st, w, fuel - 1);
                    let lv = st.low[v];
                    let lw = st.low[w];
                    let m = if lv <= lw {
                        lv
                    } else {
                        lw
                    };
                    let ghost s = st@;
                    st.low.set(v, m);
                    assert(st@.low =~= s.low.update(v as int, m));
                    assert(st@ == TState { low: s.low.update(v as int, min(s.low[v as int], s.low[w as int])), ..s });
                },
                Some(iw) => {
                    if st.on[w] {
                        let lv = st.low[v];
                        let m = if lv <= iw {
                            lv
                        } else {
                            iw
                        };
                        let ghost s = st@;
                        st.low.set(v, m);
                        assert(st@.low =~= s.low.update(v as int, m));
                    }
                },
            }
        }
        k += 1;
    }
}

pub(crate) fn str_lt_exec(a: &str, b: &str) -> (r: bool)
    ensures
        r == str_lt(a@, b@),
{
    let av = crate::text::chars_of(a);
    let bv = crate::text::chars_of(b);
    let mut k: usize = 0;
    assert(a@.skip(0) =~= a@);
    assert(b@.skip(0) =~= b@);
    while k < av.len() && k < bv.len()
        invariant
            k <= av.len(),
            k <= bv.len(),
            av@ == a@,
            bv@ == b@,
            str_lt(a@, b@) == str_lt(a@.skip(k as int), b@.skip(k as int)),
        decreases av.len() - k,
    {
        let ghost sa = a@.skip(k as int);
        let ghost sb = b@.skip(k as int);
        assert(sa[0] == av@[k as int]);
        assert(sb[0] == bv@[k as int]);
        if av[k] != bv[k] {
            return (av[k] as u32) < (bv[k] as u32);
        }
        assert(sa.drop_first() =~= a@.skip(k + 1));
        assert(sb.drop_first() =~= b@.skip(k + 1));
        k += 1;
    }
    bv.len() > av.len()
}

fn least_unvisited_exec(ids: &Vec<String>, index: &Vec<Option<usize>>) -> (r: Option<usize>)
    requires
        index.len() == ids.len(),
    ensures
        r matches Some(u) ==> least_unvisited(crate::reconcile::ast::names(ids@), index@, 0) == Some(u as int)
            && u < ids.len(),
        r is None ==> least_unvisited(crate::reconcile::ast::names(ids@), index@, 0) is None,
{
    let ghost nm = crate::reconcile::ast::names(ids@);
    let mut best: Option<usize> = None;
    let mut j = ids.len();
    while j > 0
        invariant
            j <= ids.len(),
            index.len() == ids.len(),
            nm == crate::reconcile::ast::names(ids@),
            match best {
                Some(b) => least_unvisited(nm, index@, j as int) == Some(b as int) && b < ids.len(),
                None => least_unvisited(nm, index@, j as int) is None,
            },
        decreases j,
    {
        let k = j - 1;
        assert(nm[k as int] == ids@[k as int]@);
        if index[k].is_none() {
            match best {
                None => {
                    best = Some(k);
                },
                Some(b) => {
                    assert(nm[b as int] == ids@[b as int]@);
                    if !str_lt_exec(ids[b].as_str(), ids[k].as_str()) {
                        best = Some(k);
                    }
                },
            }
        }
        j = k;
    }
    best
}

fn clone_occ(o: &CycleEdgeOccurrence) -> (r: CycleEdgeOccurrence)
    ensures
        r@ == o@,
{
    CycleEdgeOccurrence {
        from_note_id: o.from_note_id.clone(),
        to_note_id: o.to_note_id.clone(),
        file_path: o.file_path.clone(),
        line: o.line,
        byte_start: o.byte_start,
        byte_end: o.byte_end,
        line_text: o.line_text.clone(),
    }
}

fn contains_name(v: &Vec<String>, x: &str) -> (r: bool)
    ensures
        r == crate::reconcile::ast::names(v@).contains(x@),
{
    let ghost nm = crate::reconcile::ast::names(v@);
    let mut k: usize = 0;
    while k < v.len()
        invariant
            k <= v.len(),
            nm == crate::reconcile::ast::names(v@),
            forall|q: int| 0 <= q < k ==> nm[q] != x@,
        decreases v.len() - k,
    {
        assert(nm[k as int] == v@[k as int]@);
        if crate::text::str_eq(v[k].as_str(), x) {
            return true;
        }
        k += 1;
    }
    false
}

/// The components that Tarjan's algorithm completes on the graph over the
/// nodes `nodes` with the rows `adj` (`tarjan_run`); searches start from
/// nodes in ID order.
pub(crate) fn tarjan_sccs(nodes: &Vec<String>, adj: &Vec<Vec<usize>>) -> (r: Vec<Vec<usize>>)
    ensures
        crate::dependency_graph::rows(r@) == tarjan_run(crate::reconcile::ast::names(nodes@), crate::dependency_graph::rows(adj@)),
        forall|i: int, j: int| 0 <= i < r.len() && 0 <= j < r@[i].len() ==> #[trigger] r@[i]@[j] < nodes.len(),
{
    let n = nodes.len();
    let ghost ids = crate::reconcile::ast::names(nodes@);
    let ghost a = crate::dependency_graph::rows(adj@);
    let mut st = Tarjan {
        index: Vec::new(),
        low: Vec::new(),
        on: Vec::new(),
        stack: Vec::new(),
        sccs: Vec::new(),
        counter: 0,
    };
    let mut k: usize = 0;
    while k < n
        invariant
            k <= n,
            st.index@ == Seq::new(k as nat, |i: int| None::<usize>),
            st.low@ == Seq::new(k as nat, |i: int| usize::MAX),
            st.on@ == Seq::new(k as nat, |i: int| false),
            st.stack@.len() == 0,
            st.sccs@.len() == 0,
            st.counter == 0,
        decreases n - k,
    {
        st.index.push(None);
        st.low.push(usize::MAX);
        st.on.push(false);
        assert(st.index@ =~= Seq::new((k + 1) as nat, |i: int| None::<usize>));
        assert(st.low@ =~= Seq::new((k + 1) as nat, |i: int| usize::MAX));
        assert(st.on@ =~= Seq::new((k + 1) as nat, |i: int| false));
        k += 1;
    }
    proof {
        assert(st@.stack =~= initial_state(n as nat).stack);
        assert(st@.sccs =~= initial_state(n as nat).sccs);
        assert(st@ == initial_state(n as nat));
    }
    let ghost target = roots(a, ids, initial_state(n as nat), n as nat);
    let mut rounds: usize = n;
    loop
        invariant
            rounds <= n,
            n == nodes.len(),
            ids == crate::reconcile::ast::names(nodes@),
            a == crate::dependency_graph::rows(adj@),
            ids.len() == n,
            tarjan_wf(st@, n as nat),
            target == roots(a, ids, st@, rounds as nat),
        ensures
            tarjan_wf(st@, n as nat),
            target == st@,
        decreases rounds,
    {
        if rounds == 0 {
            break;
        }
        match least_unvisited_exec(nodes, &st.index) {
            None => {
                break;
            },
            Some(u) => {
                strong_connect(adj, n, &mut st, u, n);
            },
        }
        rounds -= 1;
    }
    proof {
        assert forall|i: int, j: int| 0 <= i < st.sccs.len() && 0 <= j < st.sccs@[i].len() implies #[trigger] st.sccs@[i]@[j] < nodes.len() by {
            assert(st@.sccs[i][j] == st.sccs@[i]@[j]);
        }
    }
    st.sccs
}

/// The strongly connected components of the graph over the nodes `nodes`
/// with the rows `adj` (`sccs_of`): Tarjan's, confirmed against the graph's
/// reachability.
pub(crate) fn strong_components(nodes: &Vec<String>, adj: &Vec<Vec<usize>>) -> (r: Vec<Vec<usize>>)
    ensures
        crate::dependency_graph::rows(r@) == sccs_of(crate::reconcile::ast::names(nodes@), crate::dependency_graph::rows(adj@)),
        is_scc_partition(crate::dependency_graph::rows(adj@), nodes.len() as nat, crate::dependency_graph::rows(r@)),
        forall|i: int, j: int| 0 <= i < r.len() && 0 <= j < r@[i].len() ==> #[trigger] r@[i]@[j] < nodes.len(),
{
    let t = tarjan_sccs(nodes, adj);
    let r = confirm_components(t, adj, nodes.len());
    proof {
        let c = crate::dependency_graph::rows(r@);
        assert forall|i: int, j: int| 0 <= i < r.len() && 0 <= j < r@[i].len() implies #[trigger] r@[i]@[j] < nodes.len() by {
            assert(c[i] == r@[i]@);
            assert(c[i][j] < nodes.len());
        }
    }
    r
}

/// Detects the cycles of a dependency graph with Tarjan's algorithm.
///
/// Searches start from nodes in ID order. A cycle is a strongly connected
/// component with more than one node, or one node with an edge to itself;
/// it comes with the occurrences whose endpoints both lie in it.
pub fn detect_cycles(graph: &DependencyGraph) -> (r: Vec<DependencyCycle>)
    ensures
        r@.map_values(|c: DependencyCycle| c@) == cycles_of(graph@),
{
    let ghost g = graph@;
    let n = graph.nodes.len();
    let sccs_v = strong_components(&graph.nodes, &graph.adj);
    let ghost sccs = crate::dependency_graph::rows(sccs_v@);
    assert(sccs == components(g));
    let mut out: Vec<DependencyCycle> = Vec::new();
    let mut q: usize = 0;
    while q < sccs_v.len()
        invariant
            q <= sccs_v.len(),
            g == graph@,
            n == graph.nodes.len(),
            forall|i: int, j: int| 0 <= i < sccs_v.len() && 0 <= j < sccs_v@[i].len() ==> #[trigger] sccs_v@[i]@[j] < n,
            sccs == crate::dependency_graph::rows(sccs_v@),
            out@.map_values(|c: DependencyCycle| c@) == cycles_upto(g, sccs, q as int),
        decreases sccs_v.len() - q,
    {
        let scc = &sccs_v[q];
        assert(sccs[q as int] == scc@);
        assert forall|i: int| 0 <= i < scc.len() implies #[trigger] scc@[i] < n by {
            assert(sccs_v@[q as int]@[i] == scc@[i]);
        }
        let self_loop = scc.len() == 1 && scc[0] < graph.adj.len() && contains_usize_vec(&graph.adj[scc[0]], scc[0]);
        proof {
            if scc.len() == 1 {
                if scc@[0] < graph.adj.len() {
                    assert(succ(g.adj, scc@[0] as int) == graph.adj@[scc@[0] as int]@);
                } else {
                    assert(succ(g.adj, scc@[0] as int) =~= Seq::<usize>::empty());
                }
            }
        }
        if scc.len() > 1 || self_loop {
            let mut ids: Vec<String> = Vec::new();
            let mut j: usize = 0;
            assert(crate::reconcile::ast::names(ids@) =~= scc_ids(g, scc@).take(0));
            while j < scc.len()
                invariant
                    j <= scc.len(),
                    g == graph@,
                    n == graph.nodes.len(),
                    forall|i: int| 0 <= i < scc.len() ==> #[trigger] scc@[i] < n,
                    crate::reconcile::ast::names(ids@) == scc_ids(g, scc@).take(j as int),
                decreases scc.len() - j,
            {
                let ghost before = crate::reconcile::ast::names(ids@);
                ids.push(graph.nodes[scc[j]].clone());
                assert(crate::reconcile::ast::names(ids@) =~= before.push(g.nodes[scc@[j as int] as int]));
                assert(scc_ids(g, scc@).take(j + 1) =~= scc_ids(g, scc@).take(j as int).push(
                    g.nodes[scc@[j as int] as int],
                ));
                j += 1;
            }
            assert(scc_ids(g, scc@).take(scc.len() as int) =~= scc_ids(g, scc@));
            let ghost idm = crate::reconcile::ast::names(ids@);
            let mut edges: Vec<CycleEdgeOccurrence> = Vec::new();
            let mut p: usize = 0;
            assert(occ_models(edges@) =~= Seq::<OccModel>::empty());
            while p < graph.occurrences.len()
                invariant
                    p <= graph.occurrences.len(),
                    g == graph@,
                    idm == crate::reconcile::ast::names(ids@),
                    occ_models(edges@) == inner_upto(g.occs, idm, p as int),
                decreases graph.occurrences.len() - p,
            {
                let o = &graph.occurrences[p];
                assert(g.occs[p as int] == o@);
                if contains_name(&ids, o.from_note_id.as_str()) && contains_name(&ids, o.to_note_id.as_str()) {
                    let ghost before = occ_models(edges@);
                    edges.push(clone_occ(o));
                    assert(occ_models(edges@) =~= before.push(o@));
                }
                p += 1;
            }
            let ghost before = out@.map_values(|c: DependencyCycle| c@);
            let cyc = DependencyCycle { nodes: ids, edges };
            out.push(cyc);
            assert(out@.map_values(|c: DependencyCycle| c@) =~= before.push(cyc@));
        }
        q += 1;
    }
    out
}

fn contains_usize_vec(v: &Vec<usize>, x: usize) -> (r: bool)
    ensures
        r == v@.contains(x),
{
    let mut k: usize = 0;
    while k < v.len()
        invariant
            k <= v.len(),
            forall|q: int| 0 <= q < k ==> v@[q] != x,
        decreases v.len() - k,
    {
        if v[k] == x {
            return true;
        }
        k += 1;
    }
    false
}


// ---------------------------------------------------------------------------
// Report
// ---------------------------------------------------------------------------

pub open spec fn digit_char(d: nat) -> char {
    if d == 0 { '0' } else if d == 1 { '1' } else if d == 2 { '2' } else if d == 3 { '3' } else if d == 4 {
        '4'
    } else if d == 5 { '5' } else if d == 6 { '6' } else if d == 7 { '7' } else if d == 8 { '8' } else { '9' }
}

/// The decimal digits of `n`.
pub open spec fn dec(n: nat) -> Seq<char>
    decreases n,
{
    if n < 10 {
        seq![digit_char(n)]
    } else {
        dec(n / 10).push(digit_char(n % 10))
    }
}

/// `n` in decimal, right-aligned to three columns.
pub open spec fn dec3(n: nat) -> Seq<char> {
    let d = dec(n);
    if d.len() < 3 {
        Seq::new((3 - d.len()) as nat, |i: int| ' ') + d
    } else {
        d
    }
}

pub open spec fn repeat(c: char, n: nat) -> Seq<char> {
    Seq::new(n, |i: int| c)
}

/// The report lines of one edge occurrence.
pub open spec fn edge_report(o: OccModel) -> Seq<char> {
    let line1 = (o.line + 1) as nat;
    "\n  --> "@ + o.path + ":"@ + dec(line1) + ":"@ + dec((o.byte_start + 1) as nat) + "\n"@ + "   |\n"@
        + dec3(line1) + " | "@ + o.text + "\n"@ + "    | "@ + repeat(' ', o.byte_start as nat) + repeat(
        '^',
        (o.byte_end - o.byte_start) as nat,
    ) + " this dependency participates in a cycle\n"@
}

pub open spec fn edges_report(es: Seq<OccModel>, k: int) -> Seq<char>
    decreases k,
{
    if k <= 0 {
        seq![]
    } else {
        edges_report(es, k - 1) + edge_report(es[k - 1])
    }
}

/// `ids` joined by ` -> `.
pub open spec fn chain(ids: Seq<Seq<char>>, k: int) -> Seq<char>
    decreases k,
{
    if k <= 0 {
        seq![]
    } else if k == 1 {
        ids[0]
    } else {
        chain(ids, k - 1) + " -> "@ + ids[k - 1]
    }
}

/// The report of one cycle: its edges, then the chain of its nodes back to
/// the first.
pub open spec fn cycle_report(c: CycleModel) -> Seq<char> {
    let ids = if c.nodes.len() > 0 { c.nodes.push(c.nodes[0]) } else { c.nodes };
    "error: cyclic task dependency detected\n"@ + edges_report(c.edges, c.edges.len() as int) + "\ncycle:\n  "@
        + chain(ids, ids.len() as int) + "\n"@ + "\n"@
}

pub open spec fn report(cs: Seq<CycleModel>, k: int) -> Seq<char>
    decreases k,
{
    if k <= 0 {
        seq![]
    } else {
        report(cs, k - 1) + cycle_report(cs[k - 1])
    }
}

/// The occurrence can be reported: its range is ordered and its numbers
/// have a successor.
pub open spec fn reportable(o: OccModel) -> bool {
    o.byte_start <= o.byte_end && o.byte_start < u32::MAX && o.line < usize::MAX
}

fn append(out: &mut Vec<char>, s: &str)
    ensures
        final(out)@ == old(out)@ + s@,
{
    let v = crate::text::chars_of(s);
    append_chars(out, &v);
}

fn append_chars(out: &mut Vec<char>, v: &Vec<char>)
    ensures
        final(out)@ == old(out)@ + v@,
{
    let ghost start = out@;
    let mut k: usize = 0;
    while k < v.len()
        invariant
            k <= v.len(),
            out@ == start + v@.take(k as int),
        decreases v.len() - k,
    {
        out.push(v[k]);
        assert(v@.take(k + 1) =~= v@.take(k as int).push(v@[k as int]));
        k += 1;
    }
    assert(v@.take(v.len() as int) =~= v@);
}

pub(crate) fn digit_exec(d: u64) -> (c: char)
    requires
        d < 10,
    ensures
        c == digit_char(d as nat),
{
    if d == 0 { '0' } else if d == 1 { '1' } else if d == 2 { '2' } else if d == 3 { '3' } else if d == 4 {
        '4'
    } else if d == 5 { '5' } else if d == 6 { '6' } else if d == 7 { '7' } else if d == 8 { '8' } else { '9' }
}

pub(crate) fn dec_exec(n: u64) -> (r: Vec<char>)
    ensures
        r@ == dec(n as nat),
    decreases n,
{
    if n < 10 {
        let mut v: Vec<char> = Vec::new();
        v.push(digit_exec(n));
        assert(v@ =~= seq![digit_char(n as nat)]);
        v
    } else {
        let mut v = dec_exec(n / 10);
        v.push(digit_exec(n % 10));
        v
    }
}

proof fn lemma_dec_len(n: nat)
    ensures
        dec(n).len() >= 1,
        n < 10 ==> dec(n).len() == 1,
        10 <= n < 100 ==> dec(n).len() == 2,
        n >= 100 ==> dec(n).len() >= 3,
    decreases n,
{
    if n >= 10 {
        lemma_dec_len(n / 10);
    }
}

fn append_repeat(out: &mut Vec<char>, c: char, n: usize)
    ensures
        final(out)@ == old(out)@ + repeat(c, n as nat),
{
    let ghost start = out@;
    let mut k: usize = 0;
    while k < n
        invariant
            k <= n,
            out@ == start + repeat(c, k as nat),
        decreases n - k,
    {
        out.push(c);
        assert(repeat(c, (k + 1) as nat) =~= repeat(c, k as nat).push(c));
        k += 1;
    }
}

fn append_edge(out: &mut Vec<char>, o: &CycleEdgeOccurrence)
    requires
        reportable(o@),
    ensures
        final(out)@ == old(out)@ + edge_report(o@),
{
    let ghost start = out@;
    let line1 = (o.line + 1) as u64;
    let d = dec_exec(line1);
    let col = dec_exec((o.byte_start + 1) as u64);
    proof {
        lemma_dec_len(line1 as nat);
    }
    let mut piece: Vec<char> = Vec::new();
    append(&mut piece, "\n  --> ");
    append(&mut piece, o.file_path.as_str());
    append(&mut piece, ":");
    append_chars(&mut piece, &d);
    append(&mut piece, ":");
    append_chars(&mut piece, &col);
    append(&mut piece, "\n");
    append(&mut piece, "   |\n");
    let ghost p1 = piece@;
    assert(p1 == "\n  --> "@ + o@.path + ":"@ + dec((o@.line + 1) as nat) + ":"@ + dec((o@.byte_start + 1) as nat)
        + "\n"@ + "   |\n"@);
    if d.len() < 3 {
        append_repeat(&mut piece, ' ', 3 - d.len());
    }
    append_chars(&mut piece, &d);
    let ghost p2 = piece@;
    assert(p2 == p1 + dec3((o@.line + 1) as nat));
    append(&mut piece, " | ");
    append(&mut piece, o.line_text.as_str());
    append(&mut piece, "\n");
    append(&mut piece, "    | ");
    append_repeat(&mut piece, ' ', o.byte_start as usize);
    append_repeat(&mut piece, '^', (o.byte_end - o.byte_start) as usize);
    append(&mut piece, " this dependency participates in a cycle\n");
    assert(piece@ == edge_report(o@));
    append_chars(out, &piece);
}

fn cycle_text(c: &DependencyCycle) -> (r: Vec<char>)
    requires
        forall|b: int| 0 <= b < c.edges.len() ==> reportable(#[trigger] c.edges@[b]@),
    ensures
        r@ == cycle_report(c@),
{
    let mut out: Vec<char> = Vec::new();
    append(&mut out, "error: cyclic task dependency detected\n");
    let ghost es = occ_models(c.edges@);
    let ghost mid = out@;
    let mut j: usize = 0;
    while j < c.edges.len()
        invariant
            j <= c.edges.len(),
            es == occ_models(c.edges@),
            forall|b: int| 0 <= b < c.edges.len() ==> reportable(#[trigger] c.edges@[b]@),
            out@ == mid + edges_report(es, j as int),
        decreases c.edges.len() - j,
    {
        assert(es[j as int] == c.edges@[j as int]@);
        append_edge(&mut out, &c.edges[j]);
        j += 1;
    }
    let ghost p1 = out@;
    append(&mut out, "\ncycle:\n  ");
    let ghost nm = crate::reconcile::ast::names(c.nodes@);
    let ghost before_chain = out@;
    let mut k: usize = 0;
    while k < c.nodes.len()
        invariant
            k <= c.nodes.len(),
            nm == crate::reconcile::ast::names(c.nodes@),
            out@ == before_chain + chain(nm, k as int),
        decreases c.nodes.len() - k,
    {
        if k > 0 {
            append(&mut out, " -> ");
        }
        append(&mut out, c.nodes[k].as_str());
        proof {
            assert(nm[k as int] == c.nodes@[k as int]@);
            if k == 0 {
                assert(chain(nm, 1) == nm[0]);
            }
        }
        k += 1;
    }
    let ghost ids = if nm.len() > 0 { nm.push(nm[0]) } else { nm };
    if c.nodes.len() > 0 {
        append(&mut out, " -> ");
        append(&mut out, c.nodes[0].as_str());
        proof {
            assert(nm[0] == c.nodes@[0]@);
            lemma_chain_prefix(nm, ids, nm.len() as int);
            assert(chain(ids, ids.len() as int) == chain(nm, nm.len() as int) + " -> "@ + nm[0]);
        }
    }
    let ghost p2 = out@;
    assert(p2 == p1 + "\ncycle:\n  "@ + chain(ids, ids.len() as int));
    append(&mut out, "\n");
    append(&mut out, "\n");
    out
}

/// Renders the cycles as compiler-style error reports, each edge with its
/// file, 1-based line and column, source line and a `^` underline, then
/// the chain of the cycle's notes.
pub fn render_cycle_errors(cycles: &[DependencyCycle]) -> (r: String)
    requires
        forall|i: int, j: int|
            0 <= i < cycles.len() && 0 <= j < cycles@[i].edges.len() ==> reportable(#[trigger] cycles@[i].edges@[j]@),
    ensures
        r@ == report(cycles@.map_values(|c: DependencyCycle| c@), cycles.len() as int),
{
    let ghost cs = cycles@.map_values(|c: DependencyCycle| c@);
    let mut out: Vec<char> = Vec::new();
    let mut i: usize = 0;
    assert(out@ =~= report(cs, 0));
    while i < cycles.len()
        invariant
            i <= cycles.len(),
            cs == cycles@.map_values(|c: DependencyCycle| c@),
            forall|a: int, b: int|
                0 <= a < cycles.len() && 0 <= b < cycles@[a].edges.len() ==> reportable(#[trigger] cycles@[a].edges@[b]@),
            out@ == report(cs, i as int),
        decreases cycles.len() - i,
    {
        assert(cs[i as int] == cycles@[i as int]@);
        let t = cycle_text(&cycles[i]);
        append_chars(&mut out, &t);
        i += 1;
    }
    crate::text::string_from_chars(&out)
}

proof fn lemma_chain_prefix(a: Seq<Seq<char>>, b: Seq<Seq<char>>, k: int)
    requires
        0 <= k <= a.len(),
        k <= b.len(),
        forall|i: int| 0 <= i < k ==> a[i] == b[i],
    ensures
        chain(a, k) == chain(b, k),
    decreases k,
{
    if k > 1 {
        lemma_chain_prefix(a, b, k - 1);
    }
}

} // verus!
