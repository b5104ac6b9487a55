//! The order in which the components of the dependency graph are solved: a
//! topological order of the component DAG, so that each component comes
//! before the components it depends on.
use vstd::prelude::*;
use crate::cycle::succ;
use crate::dependency_graph::rows;
use crate::reach::{
    bool_rows, count_true, is_reach_matrix, is_scc_partition, lemma_count_true_le, lemma_reach_refl, lemma_reach_step,
    lemma_reach_trans, mutual, reach, reach_matrix, together,
};
use crate::reconcile::{comp_edge, lemma_scc_dag_edge, scc_dag, topo_order};

verus! {

/// `order` lists each of `0..n` exactly once, and every node before each
/// node that it has an edge to in `dag`.
pub open spec fn is_topo_order(dag: Seq<Seq<usize>>, n: nat, order: Seq<usize>) -> bool {
    &&& forall|p: int| 0 <= p < order.len() ==> #[trigger] order[p] < n
    &&& forall|p: int, q: int|
        0 <= p < order.len() && 0 <= q < order.len() && p != q ==> #[trigger] order[p] != #[trigger] order[q]
    &&& forall|v: usize| v < n ==> #[trigger] order.contains(v)
    &&& forall|p: int, q: int|
        #![trigger succ(dag, order[p] as int), order[q]]
        0 <= p < order.len() && 0 <= q < order.len() && succ(dag, order[p] as int).contains(order[q]) ==> p < q
}

/// Whether `order` is a topological order of the `n` nodes of `dag`.
fn check_topo(dag: &Vec<Vec<usize>>, n: usize, order: &Vec<usize>) -> (ok: bool)
    ensures
        ok == is_topo_order(rows(dag@), n as nat, order@),
{
    let ghost g = rows(dag@);
    let ghost o = order@;
    let none = order.len();
    let mut pos: Vec<usize> = Vec::new();
    let mut v: usize = 0;
    while v < n
        invariant
            v <= n,
            pos.len() == v,
            forall|q: int| 0 <= q < v ==> #[trigger] pos@[q] == none,
        decreases n - v,
    {
        pos.push(none);
        v += 1;
    }
    let mut p: usize = 0;
    while p < order.len()
        invariant
            p <= order.len(),
            o == order@,
            none == order.len(),
            pos.len() == n,
            forall|q: int| 0 <= q < p ==> #[trigger] o[q] < n && pos@[o[q] as int] == q,
            forall|x: int| 0 <= x < n && #[trigger] pos@[x] != none ==> pos@[x] < p && o[pos@[x] as int] == x,
            forall|q1: int, q2: int| 0 <= q1 < p && 0 <= q2 < p && q1 != q2 ==> #[trigger] o[q1] != #[trigger] o[q2],
        decreases order.len() - p,
    {
        let x = order[p];
        if x >= n {
            return false;
        }
        if pos[x] != none {
            proof {
                let q = pos@[x as int] as int;
                assert(o[q] == o[p as int]);
            }
            return false;
        }
        let ghost pos0 = pos@;
        pos.set(x, p);
        proof {
            assert forall|q: int| 0 <= q < p + 1 implies #[trigger] o[q] < n && pos@[o[q] as int] == q by {
                if q < p {
                    assert(pos0[o[q] as int] == q);
                    assert(o[q] != x);
                }
            }
            assert forall|y: int| 0 <= y < n && #[trigger] pos@[y] != none implies pos@[y] < p + 1 && o[pos@[y] as int] == y by {
                if y != x as int {
                    assert(pos0[y] == pos@[y]);
                }
            }
            assert forall|q1: int, q2: int| 0 <= q1 < p + 1 && 0 <= q2 < p + 1 && q1 != q2 implies #[trigger] o[q1]
                != #[trigger] o[q2] by {
                if q1 < p && q2 == p {
                    assert(pos0[o[q1] as int] == q1);
                }
                if q2 < p && q1 == p {
                    assert(pos0[o[q2] as int] == q2);
                }
            }
        }
        p += 1;
    }
    let mut v: usize = 0;
    while v < n
        invariant
            v <= n,
            o == order@,
            none == order.len(),
            pos.len() == n,
            forall|q: int| 0 <= q < o.len() ==> #[trigger] o[q] < n && pos@[o[q] as int] == q,
            forall|x: int| 0 <= x < n && #[trigger] pos@[x] != none ==> pos@[x] < o.len() && o[pos@[x] as int] == x,
            forall|x: usize| x < v ==> #[trigger] o.contains(x),
        decreases n - v,
    {
        if pos[v] == none {
            proof {
                if o.contains(v) {
                    let q = choose|q: int| 0 <= q < o.len() && o[q] == v;
                    assert(pos@[o[q] as int] == q);
                }
            }
            return false;
        }
        proof {
            assert(o[pos@[v as int] as int] == v);
        }
        v += 1;
    }
    let mut p: usize = 0;
    while p < order.len()
        invariant
            p <= order.len(),
            o == order@,
            g == rows(dag@),
            none == order.len(),
            pos.len() == n,
            forall|q: int| 0 <= q < o.len() ==> #[trigger] o[q] < n && pos@[o[q] as int] == q,
            forall|x: int| 0 <= x < n && #[trigger] pos@[x] != none ==> pos@[x] < o.len() && o[pos@[x] as int] == x,
            forall|p1: int, q: int|
                #![trigger succ(g, o[p1] as int), o[q]]
                0 <= p1 < p && 0 <= q < o.len() && succ(g, o[p1] as int).contains(o[q]) ==> p1 < q,
        decreases order.len() - p,
    {
        let c = order[p];
        if c < dag.len() {
            let row = &dag[c];
            assert(succ(g, c as int) == row@);
            let mut k: usize = 0;
            while k < row.len()
                invariant
                    p < order.len(),
                    c == o[p as int],
                    o == order@,
                    none == order.len(),
                    pos.len() == n,
                    k <= row.len(),
                    g == rows(dag@),
                    succ(g, c as int) == row@,
                    forall|q: int| 0 <= q < o.len() ==> #[trigger] o[q] < n && pos@[o[q] as int] == q,
                    forall|x: int| 0 <= x < n && #[trigger] pos@[x] != none ==> pos@[x] < o.len() && o[pos@[x] as int] == x,
                    forall|k1: int, q: int| 0 <= k1 < k && 0 <= q < o.len() && #[trigger] row@[k1] == #[trigger] o[q] ==> p < q,
                decreases row.len() - k,
            {
                let d = row[k];
                if d < n {
                    let q = pos[d];
                    if q != none && q <= p {
                        proof {
                            assert(o[q as int] == d);
                            assert(row@[k as int] == d);
                            assert(succ(g, o[p as int] as int).contains(o[q as int]));
                        }
                        return false;
                    }
                }
                proof {
                    assert forall|k1: int, q: int| 0 <= k1 < k + 1 && 0 <= q < o.len() && #[trigger] row@[k1] == #[trigger] o[q]
                        implies p < q by {
                        if k1 == k as int {
                            assert(pos@[o[q] as int] == q);
                        }
                    }
                }
                k += 1;
            }
            proof {
                assert forall|p1: int, q: int|
                    #![trigger succ(g, o[p1] as int), o[q]]
                    0 <= p1 < p + 1 && 0 <= q < o.len() && succ(g, o[p1] as int).contains(o[q]) implies p1 < q by {
                    if p1 == p as int {
                        let k1 = choose|k1: int| 0 <= k1 < row@.len() && row@[k1] == o[q];
                    }
                }
            }
        } else {
            proof {
                assert(succ(g, c as int) =~= Seq::<usize>::empty());
            }
        }
        p += 1;
    }
    true
}

// ---------------------------------------------------------------------------
// Ordering by the number of nodes reached
// ---------------------------------------------------------------------------

/// The indices among `0..i` whose count is `c`, in order.
pub open spec fn with_count(cnt: Seq<usize>, c: int, i: int) -> Seq<usize>
    decreases i,
{
    if i <= 0 {
        seq![]
    } else if cnt[i - 1] == c {
        with_count(cnt, c, i - 1).push((i - 1) as usize)
    } else {
        with_count(cnt, c, i - 1)
    }
}

/// The indices whose count is `top`, then those whose count is `top - 1`,
/// and so on for `k` counts.
pub open spec fn by_count(cnt: Seq<usize>, top: int, k: int) -> Seq<usize>
    decreases k,
{
    if k <= 0 {
        seq![]
    } else {
        by_count(cnt, top, k - 1) + with_count(cnt, top - (k - 1), cnt.len() as int)
    }
}

/// The indices of `cnt`, by count from the highest (`top`) down, and by
/// index within a count.
fn order_by_count(cnt: &Vec<usize>, top: usize) -> (r: Vec<usize>)
    requires
        forall|i: int| 0 <= i < cnt.len() ==> #[trigger] cnt@[i] <= top,
    ensures
        r@ == by_count(cnt@, top as int, top + 1),
        forall|p: int| 0 <= p < r.len() ==> #[trigger] r@[p] < cnt.len(),
        forall|p: int, q: int| 0 <= p < r.len() && 0 <= q < r.len() && p != q ==> #[trigger] r@[p] != #[trigger] r@[q],
        forall|v: usize| v < cnt.len() ==> #[trigger] r@.contains(v),
        forall|p: int, q: int| 0 <= p < q < r.len() ==> cnt@[#[trigger] r@[p] as int] >= cnt@[#[trigger] r@[q] as int],
{
    let m = cnt.len();
    let mut out: Vec<usize> = Vec::new();
    let mut k: usize = 0;
    loop
        invariant
            k <= top,
            m == cnt.len(),
            forall|i: int| 0 <= i < cnt.len() ==> #[trigger] cnt@[i] <= top,
            out@ == by_count(cnt@, top as int, k as int),
            forall|p: int| 0 <= p < out.len() ==> #[trigger] out@[p] < m && cnt@[out@[p] as int] > top - k,
            forall|p: int, q: int| 0 <= p < out.len() && 0 <= q < out.len() && p != q ==> #[trigger] out@[p] != #[trigger] out@[q],
            forall|v: usize| v < m && cnt@[v as int] > top - k ==> #[trigger] out@.contains(v),
            forall|p: int, q: int| 0 <= p < q < out.len() ==> cnt@[#[trigger] out@[p] as int] >= cnt@[#[trigger] out@[q] as int],
        decreases top - k,
    {
        let c = top - k;
        let ghost base = out@;
        let mut i: usize = 0;
        while i < m
            invariant
                i <= m,
                m == cnt.len(),
                c == top - k,
                base == by_count(cnt@, top as int, k as int),
                out@ == base + with_count(cnt@, c as int, i as int),
                forall|p: int| 0 <= p < base.len() ==> #[trigger] base[p] < m && cnt@[base[p] as int] > c,
                forall|p: int| 0 <= p < out.len() ==> #[trigger] out@[p] < m && (cnt@[out@[p] as int] > c || (cnt@[out@[p] as int]
                    == c && out@[p] < i)),
                forall|p: int, q: int| 0 <= p < out.len() && 0 <= q < out.len() && p != q ==> #[trigger] out@[p] != #[trigger] out@[q],
                forall|v: usize| v < m && cnt@[v as int] > c ==> #[trigger] out@.contains(v),
                forall|v: usize| v < i && cnt@[v as int] == c ==> #[trigger] out@.contains(v),
                forall|p: int, q: int| 0 <= p < q < out.len() ==> cnt@[#[trigger] out@[p] as int] >= cnt@[#[trigger] out@[q] as int],
                forall|p: int| 0 <= p < out.len() ==> cnt@[#[trigger] out@[p] as int] >= c,
            decreases m - i,
        {
            if cnt[i] == c {
                let ghost before = out@;
                out.push(i);
                proof {
                    assert(out@ =~= base + with_count(cnt@, c as int, i + 1)) by {
                        assert(with_count(cnt@, c as int, i + 1) == with_count(cnt@, c as int, i as int).push(i));
                    }
                    assert forall|p: int, q: int| 0 <= p < out.len() && 0 <= q < out.len() && p != q implies #[trigger] out@[p]
                        != #[trigger] out@[q] by {
                        if p < before.len() && q == before.len() {
                            assert(out@[p] == before[p]);
                        }
                        if q < before.len() && p == before.len() {
                            assert(out@[q] == before[q]);
                        }
                        if p < before.len() && q < before.len() {
                            assert(out@[p] == before[p] && out@[q] == before[q]);
                        }
                    }
                    assert forall|v: usize| v < m && cnt@[v as int] > c implies #[trigger] out@.contains(v) by {
                        assert(before.contains(v));
                        let y = choose|y: int| 0 <= y < before.len() && before[y] == v;
                        assert(out@[y] == v);
                    }
                    assert forall|v: usize| v < i + 1 && cnt@[v as int] == c implies #[trigger] out@.contains(v) by {
                        if v < i {
                            assert(before.contains(v));
                            let y = choose|y: int| 0 <= y < before.len() && before[y] == v;
                            assert(out@[y] == v);
                        } else {
                            assert(out@[before.len() as int] == v);
                        }
                    }
                    assert forall|p: int, q: int| 0 <= p < q < out.len() implies cnt@[#[trigger] out@[p] as int] >= cnt@[
                        #[trigger] out@[q] as int] by {
                        if q < before.len() {
                            assert(out@[p] == before[p] && out@[q] == before[q]);
                        } else {
                            assert(out@[p] == before[p]);
                        }
                    }
                }
            } else {
                proof {
                    assert(with_count(cnt@, c as int, i + 1) == with_count(cnt@, c as int, i as int));
                }
            }
            i += 1;
        }
        proof {
            assert(by_count(cnt@, top as int, k + 1) == base + with_count(cnt@, c as int, m as int));
        }
        if c == 0 {
            proof {
                assert forall|v: usize| v < m implies #[trigger] out@.contains(v) by {
                    if cnt@[v as int] > c {
                    } else {
                        assert(cnt@[v as int] == c);
                    }
                }
            }
            return out;
        }
        k += 1;
    }
}

/// The nodes that `u` reaches, as flags over `0..n`.
pub open spec fn reach_row(adj: Seq<Seq<usize>>, n: nat, u: usize) -> Seq<bool> {
    Seq::new(n, |v: int| reach(adj, n, u, v as usize))
}

/// For each component, the number of nodes that its first node reaches.
pub open spec fn reach_counts(adj: Seq<Seq<usize>>, n: nat, sccs: Seq<Seq<usize>>) -> Seq<usize> {
    Seq::new(sccs.len(), |i: int| count_true(reach_row(adj, n, sccs[i][0])) as usize)
}

/// The order of the components of the graph over `0..n` (solved from the
/// last to the first): Kahn's topological order of the component DAG where
/// it is one (`is_topo_order`), else the components by the number of nodes
/// they reach, most first.
pub open spec fn solve_order(adj: Seq<Seq<usize>>, n: nat, sccs: Seq<Seq<usize>>) -> Seq<usize> {
    let dag = scc_dag(adj, sccs);
    let t = topo_order(dag, sccs.len());
    if is_topo_order(dag, sccs.len(), t) {
        t
    } else {
        by_count(reach_counts(adj, n, sccs), n as int, n as int + 1)
    }
}

proof fn lemma_count_true_subset(a: Seq<bool>, b: Seq<bool>)
    requires
        a.len() == b.len(),
        forall|k: int| 0 <= k < b.len() && #[trigger] b[k] ==> a[k],
    ensures
        count_true(b) <= count_true(a),
    decreases a.len(),
{
    if a.len() > 0 {
        lemma_count_true_subset(a.drop_last(), b.drop_last());
    }
}

proof fn lemma_count_true_strict(a: Seq<bool>, b: Seq<bool>, w: int)
    requires
        a.len() == b.len(),
        forall|k: int| 0 <= k < b.len() && #[trigger] b[k] ==> a[k],
        0 <= w < a.len(),
        a[w],
        !b[w],
    ensures
        count_true(b) < count_true(a),
    decreases a.len(),
{
    if w == a.len() - 1 {
        lemma_count_true_subset(a.drop_last(), b.drop_last());
    } else {
        lemma_count_true_strict(a.drop_last(), b.drop_last(), w);
    }
}

/// A component with an edge into another reaches more nodes than it.
proof fn lemma_edge_counts(adj: Seq<Seq<usize>>, n: nat, sccs: Seq<Seq<usize>>, c: int, d: int)
    requires
        n <= usize::MAX,
        is_scc_partition(adj, n, sccs),
        0 <= c < sccs.len(),
        0 <= d < sccs.len(),
        c != d,
        comp_edge(adj, sccs, c, d),
    ensures
        count_true(reach_row(adj, n, sccs[d][0])) < count_true(reach_row(adj, n, sccs[c][0])),
{
    let (x, y) = choose|x: usize, y: usize|
        #[trigger] sccs[c].contains(x) && #[trigger] sccs[d].contains(y) && succ(adj, x as int).contains(y);
    let rc = sccs[c][0];
    let rd = sccs[d][0];
    assert(sccs[c].len() > 0 && sccs[d].len() > 0);
    assert(sccs[c].contains(rc) && sccs[d].contains(rd));
    let jx = choose|j: int| 0 <= j < sccs[c].len() && sccs[c][j] == x;
    let jy = choose|j: int| 0 <= j < sccs[d].len() && sccs[d][j] == y;
    assert(sccs[c][jx] < n && sccs[d][jy] < n && sccs[c][0] < n && sccs[d][0] < n);
    assert(together(sccs, rc, x));
    assert(together(sccs, rd, y));
    assert(mutual(adj, n, rc, x));
    assert(mutual(adj, n, rd, y));
    lemma_reach_refl(adj, n, x);
    lemma_reach_step(adj, n, x, x, y);
    lemma_reach_trans(adj, n, rc, x, y);
    lemma_reach_trans(adj, n, rc, y, rd);
    let a = reach_row(adj, n, rc);
    let b = reach_row(adj, n, rd);
    assert forall|k: int| 0 <= k < b.len() && #[trigger] b[k] implies a[k] by {
        lemma_reach_trans(adj, n, rc, rd, k as usize);
    }
    lemma_reach_refl(adj, n, rc);
    if reach(adj, n, rd, rc) {
        assert(mutual(adj, n, rc, rd));
        assert(together(sccs, rc, rd));
        let i = choose|i: int| 0 <= i < sccs.len() && #[trigger] sccs[i].contains(rc) && sccs[i].contains(rd);
        let j1 = choose|j: int| 0 <= j < sccs[i].len() && sccs[i][j] == rc;
        let j2 = choose|j: int| 0 <= j < sccs[i].len() && sccs[i][j] == rd;
        assert(sccs[i][j1] == sccs[c][0]);
        assert(sccs[i][j2] == sccs[d][0]);
    }
    assert(a[rc as int] && !b[rc as int]);
    lemma_count_true_strict(a, b, rc as int);
}

/// The number of flags set in `row`.
fn count_set(row: &Vec<bool>) -> (c: usize)
    ensures
        c == count_true(row@),
{
    let mut c: usize = 0;
    let mut v: usize = 0;
    while v < row.len()
        invariant
            v <= row.len(),
            c == count_true(row@.take(v as int)),
            c <= v,
        decreases row.len() - v,
    {
        assert(row@.take(v + 1).drop_last() =~= row@.take(v as int));
        if row[v] {
            c += 1;
        }
        v += 1;
    }
    assert(row@.take(row.len() as int) =~= row@);
    c
}

/// The order to solve the components in (`solve_order`): Kahn's order `t`
/// where it is a topological order of the component DAG, else the
/// components by the number of nodes they reach.
pub(crate) fn confirm_order(
    t: Vec<usize>,
    dag: &Vec<Vec<usize>>,
    adj: &Vec<Vec<usize>>,
    sccs: &Vec<Vec<usize>>,
    n: usize,
) -> (r: Vec<usize>)
    requires
        rows(dag@) == scc_dag(rows(adj@), rows(sccs@)),
        t@ == topo_order(rows(dag@), sccs.len() as nat),
        is_scc_partition(rows(adj@), n as nat, rows(sccs@)),
    ensures
        r@ == solve_order(rows(adj@), n as nat, rows(sccs@)),
        is_topo_order(rows(dag@), sccs.len() as nat, r@),
{
    let ghost a = rows(adj@);
    let ghost sc = rows(sccs@);
    let ghost g = rows(dag@);
    if check_topo(dag, sccs.len(), &t) {
        return t;
    }
    let mx = reach_matrix(adj, n);
    let ghost b = bool_rows(mx@);
    let mut cnt: Vec<usize> = Vec::new();
    let mut i: usize = 0;
    while i < sccs.len()
        invariant
            i <= sccs.len(),
            sc == rows(sccs@),
            a == rows(adj@),
            b == bool_rows(mx@),
            is_reach_matrix(b, a, n as nat),
            is_scc_partition(a, n as nat, sc),
            cnt.len() == i,
            forall|q: int| 0 <= q < i ==> #[trigger] cnt@[q] == reach_counts(a, n as nat, sc)[q] && cnt@[q] <= n,
        decreases sccs.len() - i,
    {
        assert(sc[i as int] == sccs@[i as int]@);
        assert(sc[i as int].len() > 0);
        assert(sc[i as int][0] < n);
        let rep = sccs[i][0];
        assert(b[rep as int] == mx@[rep as int]@);
        let row = &mx[rep];
        assert(row@ =~= reach_row(a, n as nat, rep));
        let c = count_set(row);
        proof {
            lemma_count_true_le(row@);
        }
        cnt.push(c);
        i += 1;
    }
    assert(cnt@ =~= reach_counts(a, n as nat, sc));
    let r = order_by_count(&cnt, n);
    proof {
        assert forall|p: int, q: int|
            #![trigger succ(g, r@[p] as int), r@[q]]
            0 <= p < r.len() && 0 <= q < r.len() && succ(g, r@[p] as int).contains(r@[q]) implies p < q by {
            let c = r@[p] as int;
            let d = r@[q];
            assert(g[c] == succ(g, c));
            lemma_scc_dag_edge(a, sc, c, d);
            lemma_edge_counts(a, n as nat, sc, c, d as int);
            lemma_count_true_le(reach_row(a, n as nat, sc[c][0]));
            lemma_count_true_le(reach_row(a, n as nat, sc[d as int][0]));
            assert(cnt@[c] == reach_counts(a, n as nat, sc)[c]);
            assert(cnt@[d as int] == reach_counts(a, n as nat, sc)[d as int]);
            assert(cnt@[d as int] < cnt@[c]);
            if q < p {
                assert(cnt@[r@[q] as int] >= cnt@[r@[p] as int]);
            }
        }
    }
    r
}

proof fn lemma_with_count(cnt: Seq<usize>, c: int, i: int)
    requires
        0 <= i <= cnt.len(),
        cnt.len() <= usize::MAX,
    ensures
        forall|j: int|
            0 <= j < with_count(cnt, c, i).len() ==> #[trigger] with_count(cnt, c, i)[j] < i && cnt[with_count(
                cnt,
                c,
                i,
            )[j] as int] == c,
        forall|j1: int, j2: int|
            0 <= j1 < j2 < with_count(cnt, c, i).len() ==> #[trigger] with_count(cnt, c, i)[j1] < #[trigger] with_count(
                cnt,
                c,
                i,
            )[j2],
        forall|v: usize| v < i && cnt[v as int] == c ==> #[trigger] with_count(cnt, c, i).contains(v),
    decreases i,
{
    if i > 0 {
        lemma_with_count(cnt, c, i - 1);
        let w0 = with_count(cnt, c, i - 1);
        let w = with_count(cnt, c, i);
        assert forall|v: usize| v < i && cnt[v as int] == c implies #[trigger] w.contains(v) by {
            if v < i - 1 {
                assert(w0.contains(v));
                let y = choose|y: int| 0 <= y < w0.len() && w0[y] == v;
                assert(w[y] == v);
            } else {
                assert(w[w.len() - 1] == v);
            }
        }
    }
}

/// `by_count` lists, once each and from the highest count down, the indices
/// whose count lies in `top - k + 1 ..= top`.
pub proof fn lemma_by_count(cnt: Seq<usize>, top: int, k: int)
    requires
        0 <= k,
        cnt.len() <= usize::MAX,
    ensures
        forall|p: int|
            0 <= p < by_count(cnt, top, k).len() ==> #[trigger] by_count(cnt, top, k)[p] < cnt.len() && top - k < cnt[by_count(
                cnt,
                top,
                k,
            )[p] as int] <= top,
        forall|p: int, q: int|
            0 <= p < by_count(cnt, top, k).len() && 0 <= q < by_count(cnt, top, k).len() && p != q ==> #[trigger] by_count(
                cnt,
                top,
                k,
            )[p] != #[trigger] by_count(cnt, top, k)[q],
        forall|v: usize|
            v < cnt.len() && top - k < cnt[v as int] <= top ==> #[trigger] by_count(cnt, top, k).contains(v),
        forall|p: int, q: int|
            0 <= p < q < by_count(cnt, top, k).len() ==> cnt[#[trigger] by_count(cnt, top, k)[p] as int] >= cnt[
                #[trigger] by_count(cnt, top, k)[q] as int],
    decreases k,
{
    if k > 0 {
        lemma_by_count(cnt, top, k - 1);
        let lo = top - (k - 1);
        let a = by_count(cnt, top, k - 1);
        let w = with_count(cnt, lo, cnt.len() as int);
        lemma_with_count(cnt, lo, cnt.len() as int);
        let o = by_count(cnt, top, k);
        assert(o == a + w);
        assert forall|p: int| 0 <= p < o.len() implies #[trigger] o[p] < cnt.len() && top - k < cnt[o[p] as int] <= top by {
            if p < a.len() {
                assert(o[p] == a[p]);
            } else {
                assert(o[p] == w[p - a.len()]);
            }
        }
        assert forall|p: int, q: int| 0 <= p < o.len() && 0 <= q < o.len() && p != q implies #[trigger] o[p] != #[trigger] o[q] by {
            if p < a.len() && q < a.len() {
                assert(o[p] == a[p] && o[q] == a[q]);
            } else if p >= a.len() && q >= a.len() {
                assert(o[p] == w[p - a.len()] && o[q] == w[q - a.len()]);
                if p < q {
                    assert(w[p - a.len()] < w[q - a.len()]);
                } else {
                    assert(w[q - a.len()] < w[p - a.len()]);
                }
            } else if p < a.len() {
                assert(o[p] == a[p] && o[q] == w[q - a.len()]);
            } else {
                assert(o[q] == a[q] && o[p] == w[p - a.len()]);
            }
        }
        assert forall|v: usize| v < cnt.len() && top - k < cnt[v as int] <= top implies #[trigger] o.contains(v) by {
            if cnt[v as int] == lo {
                assert(w.contains(v));
                let y = choose|y: int| 0 <= y < w.len() && w[y] == v;
                assert(o[a.len() + y] == v);
            } else {
                assert(a.contains(v));
                let y = choose|y: int| 0 <= y < a.len() && a[y] == v;
                assert(o[y] == v);
            }
        }
        assert forall|p: int, q: int| 0 <= p < q < o.len() implies cnt[#[trigger] o[p] as int] >= cnt[#[trigger] o[q] as int] by {
            if q < a.len() {
                assert(o[p] == a[p] && o[q] == a[q]);
            } else if p >= a.len() {
                assert(o[p] == w[p - a.len()] && o[q] == w[q - a.len()]);
            } else {
                assert(o[p] == a[p] && o[q] == w[q - a.len()]);
            }
        }
    }
}

/// The order by reach count is a topological order of the component DAG.
pub proof fn lemma_by_count_topo(adj: Seq<Seq<usize>>, n: nat, sccs: Seq<Seq<usize>>)
    requires
        n <= usize::MAX,
        sccs.len() <= usize::MAX,
        is_scc_partition(adj, n, sccs),
    ensures
        is_topo_order(scc_dag(adj, sccs), sccs.len(), by_count(reach_counts(adj, n, sccs), n as int, n as int + 1)),
{
    let cnt = reach_counts(adj, n, sccs);
    let g = scc_dag(adj, sccs);
    let o = by_count(cnt, n as int, n as int + 1);
    lemma_by_count(cnt, n as int, n as int + 1);
    assert forall|v: usize| v < sccs.len() implies #[trigger] o.contains(v) by {
        lemma_count_true_le(reach_row(adj, n, sccs[v as int][0]));
    }
    assert forall|p: int, q: int|
        #![trigger succ(g, o[p] as int), o[q]]
        0 <= p < o.len() && 0 <= q < o.len() && succ(g, o[p] as int).contains(o[q]) implies p < q by {
        let c = o[p] as int;
        let d = o[q];
        assert(g[c] == succ(g, c));
        lemma_scc_dag_edge(adj, sccs, c, d);
        lemma_edge_counts(adj, n, sccs, c, d as int);
        lemma_count_true_le(reach_row(adj, n, sccs[c][0]));
        lemma_count_true_le(reach_row(adj, n, sccs[d as int][0]));
        assert(cnt[d as int] < cnt[c]);
        if q < p {
            assert(cnt[o[q] as int] >= cnt[o[p] as int]);
        }
    }
}

/// Distinct values below `n` number at most `n`.
pub proof fn lemma_distinct_bounded(s: Seq<usize>, n: nat)
    requires
        forall|i: int| 0 <= i < s.len() ==> #[trigger] s[i] < n,
        forall|i: int, j: int| 0 <= i < s.len() && 0 <= j < s.len() && i != j ==> #[trigger] s[i] != #[trigger] s[j],
    ensures
        s.len() <= n,
    decreases s.len(),
{
    if s.len() > 0 {
        let x = s.last();
        let s1 = s.drop_last();
        let top = (n - 1) as usize;
        let t = s1.map_values(|v: usize| if v == top { x } else { v });
        assert forall|i: int| 0 <= i < t.len() implies #[trigger] t[i] < (n - 1) as nat by {
            assert(s1[i] == s[i]);
            assert(s[i] != s[s.len() - 1]);
        }
        assert forall|i: int, j: int| 0 <= i < t.len() && 0 <= j < t.len() && i != j implies #[trigger] t[i] != #[trigger] t[j] by {
            assert(s1[i] == s[i] && s1[j] == s[j]);
            assert(s[i] != s[s.len() - 1]);
            assert(s[j] != s[s.len() - 1]);
        }
        lemma_distinct_bounded(t, (n - 1) as nat);
    }
}

/// A graph over `0..n` has at most `n` strongly connected components.
pub proof fn lemma_partition_len(adj: Seq<Seq<usize>>, n: nat, cs: Seq<Seq<usize>>)
    requires
        is_scc_partition(adj, n, cs),
    ensures
        cs.len() <= n,
{
    let heads = Seq::new(cs.len(), |i: int| cs[i][0]);
    assert forall|i: int| 0 <= i < heads.len() implies #[trigger] heads[i] < n by {
        assert(cs[i].len() > 0);
        assert(cs[i][0] < n);
    }
    assert forall|i: int, j: int| 0 <= i < heads.len() && 0 <= j < heads.len() && i != j implies #[trigger] heads[i]
        != #[trigger] heads[j] by {
        assert(cs[i].len() > 0 && cs[j].len() > 0);
        if cs[i][0] == cs[j][0] {
        }
    }
    lemma_distinct_bounded(heads, n);
}

} // verus!
