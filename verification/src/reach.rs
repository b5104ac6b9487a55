//! Reachability in a directed graph over the nodes `0..n`, and the
//! partition of those nodes into strongly connected components.
use vstd::prelude::*;
use crate::cycle::succ;
use crate::dependency_graph::rows;

verus! {

// ---------------------------------------------------------------------------
// Walks and reachability
// ---------------------------------------------------------------------------

/// `p` is a walk: one or more nodes of `0..n`, each an out-neighbour of the
/// one before.
pub open spec fn is_walk(adj: Seq<Seq<usize>>, n: nat, p: Seq<usize>) -> bool {
    &&& p.len() >= 1
    &&& forall|i: int| 0 <= i < p.len() ==> #[trigger] p[i] < n
    &&& forall|i: int| 0 <= i < p.len() - 1 ==> #[trigger] succ(adj, p[i] as int).contains(p[i + 1])
}

/// There is a walk from `u` to `v` (every node reaches itself).
pub open spec fn reach(adj: Seq<Seq<usize>>, n: nat, u: usize, v: usize) -> bool {
    exists|p: Seq<usize>| #[trigger] is_walk(adj, n, p) && p[0] == u && p.last() == v
}

/// `u` and `v` reach each other.
pub open spec fn mutual(adj: Seq<Seq<usize>>, n: nat, u: usize, v: usize) -> bool {
    reach(adj, n, u, v) && reach(adj, n, v, u)
}

pub proof fn lemma_reach_refl(adj: Seq<Seq<usize>>, n: nat, u: usize)
    requires
        u < n,
    ensures
        reach(adj, n, u, u),
{
    let p = seq![u];
    assert(is_walk(adj, n, p));
}

/// A walk to `v` goes on along an edge from `v`.
pub proof fn lemma_reach_step(adj: Seq<Seq<usize>>, n: nat, u: usize, v: usize, w: usize)
    requires
        reach(adj, n, u, v),
        w < n,
        succ(adj, v as int).contains(w),
    ensures
        reach(adj, n, u, w),
{
    let p = choose|p: Seq<usize>| #[trigger] is_walk(adj, n, p) && p[0] == u && p.last() == v;
    let q = p.push(w);
    assert forall|i: int| 0 <= i < q.len() implies #[trigger] q[i] < n by {
        if i < p.len() {
            assert(q[i] == p[i]);
        }
    }
    assert forall|i: int| 0 <= i < q.len() - 1 implies #[trigger] succ(adj, q[i] as int).contains(q[i + 1]) by {
        if i < p.len() - 1 {
            assert(q[i] == p[i] && q[i + 1] == p[i + 1]);
            assert(succ(adj, p[i] as int).contains(p[i + 1]));
        } else {
            assert(q[i] == v);
        }
    }
    assert(is_walk(adj, n, q));
}

/// Reachability is transitive.
pub proof fn lemma_reach_trans(adj: Seq<Seq<usize>>, n: nat, u: usize, v: usize, w: usize)
    requires
        reach(adj, n, u, v),
        reach(adj, n, v, w),
    ensures
        reach(adj, n, u, w),
{
    let p = choose|p: Seq<usize>| #[trigger] is_walk(adj, n, p) && p[0] == u && p.last() == v;
    let q = choose|q: Seq<usize>| #[trigger] is_walk(adj, n, q) && q[0] == v && q.last() == w;
    let r = p + q.drop_first();
    assert forall|i: int| 0 <= i < r.len() implies #[trigger] r[i] < n by {
        if i < p.len() {
            assert(r[i] == p[i]);
        } else {
            assert(r[i] == q[i - p.len() + 1]);
        }
    }
    assert forall|i: int| 0 <= i < r.len() - 1 implies #[trigger] succ(adj, r[i] as int).contains(r[i + 1]) by {
        if i < p.len() - 1 {
            assert(r[i] == p[i] && r[i + 1] == p[i + 1]);
            assert(succ(adj, p[i] as int).contains(p[i + 1]));
        } else if i == p.len() - 1 {
            assert(r[i] == v && r[i + 1] == q[1]);
            assert(succ(adj, q[0] as int).contains(q[1]));
        } else {
            let k = i - p.len() + 1;
            assert(r[i] == q[k] && r[i + 1] == q[k + 1]);
            assert(succ(adj, q[k] as int).contains(q[k + 1]));
        }
    }
    assert(is_walk(adj, n, r));
    if q.len() == 1 {
        assert(r =~= p);
    } else {
        assert(r.last() == q.last());
    }
}

/// A set of nodes (`vis`) that holds `s` and every out-neighbour of its
/// members holds every node that `s` reaches.
proof fn lemma_closed_holds_reach(adj: Seq<Seq<usize>>, n: nat, vis: Seq<bool>, s: usize, v: usize)
    requires
        vis.len() == n,
        s < n,
        vis[s as int],
        forall|u: int, w: usize|
            0 <= u < n && #[trigger] vis[u] && succ(adj, u).contains(w) && w < n ==> #[trigger] vis[w as int],
        reach(adj, n, s, v),
    ensures
        vis[v as int],
{
    let p = choose|p: Seq<usize>| #[trigger] is_walk(adj, n, p) && p[0] == s && p.last() == v;
    lemma_closed_walk(adj, n, vis, p, p.len() - 1);
}

proof fn lemma_closed_walk(adj: Seq<Seq<usize>>, n: nat, vis: Seq<bool>, p: Seq<usize>, k: int)
    requires
        vis.len() == n,
        is_walk(adj, n, p),
        vis[p[0] as int],
        0 <= k < p.len(),
        forall|u: int, w: usize|
            0 <= u < n && #[trigger] vis[u] && succ(adj, u).contains(w) && w < n ==> #[trigger] vis[w as int],
    ensures
        vis[p[k] as int],
    decreases k,
{
    if k > 0 {
        lemma_closed_walk(adj, n, vis, p, k - 1);
        assert(succ(adj, p[k - 1] as int).contains(p[k - 1 + 1]));
        assert(p[k - 1] < n);
        assert(p[k] < n);
    }
}

// ---------------------------------------------------------------------------
// Counting
// ---------------------------------------------------------------------------

pub open spec fn count_true(s: Seq<bool>) -> nat
    decreases s.len(),
{
    if s.len() == 0 {
        0
    } else {
        count_true(s.drop_last()) + if s.last() {
            1nat
        } else {
            0nat
        }
    }
}

pub(crate) proof fn lemma_count_true_le(s: Seq<bool>)
    ensures
        count_true(s) <= s.len(),
    decreases s.len(),
{
    if s.len() > 0 {
        lemma_count_true_le(s.drop_last());
    }
}

proof fn lemma_count_true_none(s: Seq<bool>)
    requires
        forall|q: int| 0 <= q < s.len() ==> !s[q],
    ensures
        count_true(s) == 0,
    decreases s.len(),
{
    if s.len() > 0 {
        lemma_count_true_none(s.drop_last());
    }
}

proof fn lemma_count_true_set(s: Seq<bool>, i: int)
    requires
        0 <= i < s.len(),
        !s[i],
    ensures
        count_true(s.update(i, true)) == count_true(s) + 1,
    decreases s.len(),
{
    let t = s.update(i, true);
    if i == s.len() - 1 {
        assert(t.drop_last() =~= s.drop_last());
    } else {
        assert(t.drop_last() =~= s.drop_last().update(i, true));
        lemma_count_true_set(s.drop_last(), i);
    }
}

// ---------------------------------------------------------------------------
// Computing reachability
// ---------------------------------------------------------------------------

/// The nodes that `s` reaches (a search over the out-edges).
fn reachable_from(adj: &Vec<Vec<usize>>, n: usize, s: usize) -> (r: Vec<bool>)
    requires
        s < n,
    ensures
        r.len() == n,
        forall|v: int| 0 <= v < n ==> #[trigger] r@[v] == reach(rows(adj@), n as nat, s, v as usize),
{
    let ghost a = rows(adj@);
    let mut vis: Vec<bool> = Vec::new();
    let mut i: usize = 0;
    while i < n
        invariant
            i <= n,
            vis@ =~= Seq::new(i as nat, |q: int| false),
        decreases n - i,
    {
        vis.push(false);
        i += 1;
    }
    proof {
        lemma_count_true_none(vis@);
        lemma_count_true_set(vis@, s as int);
        lemma_reach_refl(a, n as nat, s);
    }
    vis.set(s, true);
    let mut order: Vec<usize> = Vec::new();
    order.push(s);
    let mut head: usize = 0;
    proof {
        assert forall|v: int| 0 <= v < n && #[trigger] vis@[v] implies order@.contains(v as usize) by {
            assert(v == s as int);
            assert(order@[0] == s);
        }
    }
    while head < order.len()
        invariant
            vis.len() == n,
            s < n,
            a == rows(adj@),
            head <= order.len(),
            count_true(vis@) == order.len(),
            vis@[s as int],
            forall|k: int| 0 <= k < order.len() ==> #[trigger] order@[k] < n && vis@[order@[k] as int],
            forall|v: int| 0 <= v < n && #[trigger] vis@[v] ==> order@.contains(v as usize),
            forall|v: int| 0 <= v < n && #[trigger] vis@[v] ==> reach(a, n as nat, s, v as usize),
            forall|k: int, w: usize|
                0 <= k < head && #[trigger] succ(a, order@[k] as int).contains(w) && w < n ==> vis@[w as int],
        decreases n - head,
    {
        proof {
            lemma_count_true_le(vis@);
        }
        let u = order[head];
        let ghost vis0 = vis@;
        let ghost ord_a = order@;
        if u < adj.len() {
            let row = &adj[u];
            assert(succ(a, u as int) == row@);
            let mut k: usize = 0;
            while k < row.len()
                invariant
                    vis.len() == n,
                    s < n,
                    a == rows(adj@),
                    u < n,
                    vis@[u as int],
                    reach(a, n as nat, s, u),
                    succ(a, u as int) == row@,
                    head < order.len(),
                    order@[head as int] == u,
                    k <= row.len(),
                    count_true(vis@) == order.len(),
                    vis@[s as int],
                    vis0.len() == n,
                    forall|v: int| 0 <= v < n && #[trigger] vis0[v] ==> vis@[v],
                    ord_a.len() <= order.len(),
                    forall|q: int| 0 <= q < ord_a.len() ==> #[trigger] order@[q] == ord_a[q],
                    forall|kk: int, w: usize|
                        0 <= kk < head && #[trigger] succ(a, ord_a[kk] as int).contains(w) && w < n ==> vis0[w as int],
                    forall|q: int| 0 <= q < order.len() ==> #[trigger] order@[q] < n && vis@[order@[q] as int],
                    forall|v: int| 0 <= v < n && #[trigger] vis@[v] ==> order@.contains(v as usize),
                    forall|v: int| 0 <= v < n && #[trigger] vis@[v] ==> reach(a, n as nat, s, v as usize),
                    forall|q: int| 0 <= q < k && row@[q] < n ==> vis@[#[trigger] row@[q] as int],
                decreases row.len() - k,
            {
                let w = row[k];
                if w < n && !vis[w] {
                    proof {
                        lemma_count_true_set(vis@, w as int);
                        assert(row@.contains(w)) by {
                            assert(row@[k as int] == w);
                        }
                        lemma_reach_step(a, n as nat, s, u, w);
                    }
                    let ghost ord0 = order@;
                    vis.set(w, true);
                    order.push(w);
                    proof {
                        assert forall|v: int| 0 <= v < n && #[trigger] vis@[v] implies order@.contains(v as usize) by {
                            if v == w as int {
                                assert(order@[order.len() - 1] == w);
                            } else {
                                assert(vis0[v] ==> vis@[v]);
                                let y = choose|y: int| 0 <= y < ord0.len() && ord0[y] == v as usize;
                                assert(order@[y] == v as usize);
                            }
                        }
                        assert forall|q: int| 0 <= q < order.len() implies #[trigger] order@[q] < n && vis@[order@[q] as int] by {
                            if q < ord0.len() {
                                assert(order@[q] == ord0[q]);
                            }
                        }
                    }
                }
                k += 1;
            }
            proof {
                assert forall|kk: int, w: usize|
                    0 <= kk < head + 1 && #[trigger] succ(a, order@[kk] as int).contains(w) && w < n implies vis@[w as int] by {
                    if kk == head as int {
                        let y = choose|y: int| 0 <= y < row@.len() && row@[y] == w;
                        assert(row@[y] < n);
                    } else {
                        assert(order@[kk] == ord_a[kk]);
                        assert(vis0[w as int]);
                    }
                }
            }
        } else {
            assert(succ(a, u as int) =~= Seq::<usize>::empty());
            proof {
                assert forall|kk: int, w: usize|
                    0 <= kk < head + 1 && #[trigger] succ(a, order@[kk] as int).contains(w) && w < n implies vis@[w as int] by {
                    if kk == head as int {
                        assert(!succ(a, u as int).contains(w));
                    }
                }
            }
        }
        head += 1;
    }
    proof {
        assert forall|u: int, w: usize|
            0 <= u < n && #[trigger] vis@[u] && succ(a, u).contains(w) && w < n implies #[trigger] vis@[w as int] by {
            let y = choose|y: int| 0 <= y < order@.len() && order@[y] == u as usize;
            assert(succ(a, order@[y] as int).contains(w));
        }
        assert forall|v: int| 0 <= v < n implies #[trigger] vis@[v] == reach(a, n as nat, s, v as usize) by {
            if reach(a, n as nat, s, v as usize) {
                lemma_closed_holds_reach(a, n as nat, vis@, s, v as usize);
            }
        }
    }
    vis
}

/// `m[u][v]` says whether `u` reaches `v`.
pub open spec fn is_reach_matrix(m: Seq<Seq<bool>>, adj: Seq<Seq<usize>>, n: nat) -> bool {
    &&& m.len() == n
    &&& forall|u: int| 0 <= u < n ==> (#[trigger] m[u]).len() == n
    &&& forall|u: int, v: int| 0 <= u < n && 0 <= v < n ==> #[trigger] m[u][v] == reach(adj, n, u as usize, v as usize)
}

pub open spec fn bool_rows(v: Seq<Vec<bool>>) -> Seq<Seq<bool>> {
    v.map_values(|r: Vec<bool>| r@)
}

/// For every node, the nodes it reaches.
pub(crate) fn reach_matrix(adj: &Vec<Vec<usize>>, n: usize) -> (m: Vec<Vec<bool>>)
    ensures
        is_reach_matrix(bool_rows(m@), rows(adj@), n as nat),
{
    let mut m: Vec<Vec<bool>> = Vec::new();
    let mut u: usize = 0;
    while u < n
        invariant
            u <= n,
            m.len() == u,
            forall|x: int| 0 <= x < u ==> (#[trigger] m@[x]).len() == n,
            forall|x: int, v: int|
                0 <= x < u && 0 <= v < n ==> #[trigger] m@[x]@[v] == reach(rows(adj@), n as nat, x as usize, v as usize),
        decreases n - u,
    {
        let row = reachable_from(adj, n, u);
        m.push(row);
        proof {
            assert forall|x: int, v: int| 0 <= x < u + 1 && 0 <= v < n implies #[trigger] m@[x]@[v] == reach(
                rows(adj@),
                n as nat,
                x as usize,
                v as usize,
            ) by {
                if x == u as int {
                    assert(m@[x]@[v] == row@[v]);
                }
            }
        }
        u += 1;
    }
    proof {
        let b = bool_rows(m@);
        assert forall|x: int| 0 <= x < n implies (#[trigger] b[x]).len() == n by {
            assert(b[x] == m@[x]@);
        }
        assert forall|x: int, v: int| 0 <= x < n && 0 <= v < n implies #[trigger] b[x][v] == reach(
            rows(adj@),
            n as nat,
            x as usize,
            v as usize,
        ) by {
            assert(b[x] == m@[x]@);
        }
    }
    m
}

// ---------------------------------------------------------------------------
// Strongly connected components
// ---------------------------------------------------------------------------

/// Some component of `cs` holds `v`.
pub open spec fn in_some(cs: Seq<Seq<usize>>, v: usize) -> bool {
    exists|i: int| 0 <= i < cs.len() && #[trigger] cs[i].contains(v)
}

/// Some component of `cs` holds both `x` and `y`.
pub open spec fn together(cs: Seq<Seq<usize>>, x: usize, y: usize) -> bool {
    exists|i: int| 0 <= i < cs.len() && #[trigger] cs[i].contains(x) && cs[i].contains(y)
}

/// `cs` lists the strongly connected components of the graph over `0..n`:
/// none is empty, every node stands at exactly one place in exactly one of
/// them, and two nodes share a component exactly when they reach each other.
pub open spec fn is_scc_partition(adj: Seq<Seq<usize>>, n: nat, cs: Seq<Seq<usize>>) -> bool {
    &&& forall|i: int| 0 <= i < cs.len() ==> (#[trigger] cs[i]).len() > 0
    &&& forall|i: int, j: int| 0 <= i < cs.len() && 0 <= j < cs[i].len() ==> #[trigger] cs[i][j] < n
    &&& forall|i1: int, j1: int, i2: int, j2: int|
        0 <= i1 < cs.len() && 0 <= j1 < cs[i1].len() && 0 <= i2 < cs.len() && 0 <= j2 < cs[i2].len() && #[trigger] cs[i1][j1]
            == #[trigger] cs[i2][j2] ==> i1 == i2 && j1 == j2
    &&& forall|v: usize| v < n ==> #[trigger] in_some(cs, v)
    &&& forall|x: usize, y: usize|
        #![trigger together(cs, x, y)]
        #![trigger mutual(adj, n, x, y)]
        x < n && y < n ==> (together(cs, x, y) <==> mutual(adj, n, x, y))
}

/// Position `(i1, j1)` comes before position `(i, j)`.
pub open spec fn before(i1: int, j1: int, i: int, j: int) -> bool {
    i1 < i || (i1 == i && j1 < j)
}

/// Whether `cs` lists the strongly connected components, given the
/// reachability matrix `m` of the graph.
fn check_partition(m: &Vec<Vec<bool>>, n: usize, cs: &Vec<Vec<usize>>, Ghost(a): Ghost<Seq<Seq<usize>>>) -> (ok: bool)
    requires
        is_reach_matrix(bool_rows(m@), a, n as nat),
    ensures
        ok == is_scc_partition(a, n as nat, rows(cs@)),
{
    let ghost c = rows(cs@);
    let ghost nn = n as nat;
    let none = cs.len();
    let mut comp: Vec<usize> = Vec::new();
    let mut v: usize = 0;
    while v < n
        invariant
            v <= n,
            comp.len() == v,
            forall|q: int| 0 <= q < v ==> #[trigger] comp@[q] == none,
        decreases n - v,
    {
        comp.push(none);
        v += 1;
    }
    let mut i: usize = 0;
    while i < cs.len()
        invariant
            i <= cs.len(),
            none == cs.len(),
            c == rows(cs@),
            c.len() == cs.len(),
            comp.len() == n,
            forall|i1: int| 0 <= i1 < i ==> (#[trigger] c[i1]).len() > 0,
            forall|i1: int, j1: int|
                0 <= i1 < c.len() && 0 <= j1 < c[i1].len() && before(i1, j1, i as int, 0) ==> #[trigger] c[i1][j1] < n
                    && comp@[c[i1][j1] as int] == i1,
            forall|i1: int, j1: int, i2: int, j2: int|
                0 <= i1 < c.len() && 0 <= j1 < c[i1].len() && 0 <= i2 < c.len() && 0 <= j2 < c[i2].len() && before(
                    i1,
                    j1,
                    i as int,
                    0,
                ) && before(i2, j2, i as int, 0) && #[trigger] c[i1][j1] == #[trigger] c[i2][j2] ==> i1 == i2 && j1 == j2,
            forall|x: int|
                0 <= x < n && #[trigger] comp@[x] != none ==> comp@[x] < i && exists|j1: int|
                    0 <= j1 < c[comp@[x] as int].len() && #[trigger] c[comp@[x] as int][j1] == x,
        decreases cs.len() - i,
    {
        let row = &cs[i];
        assert(c[i as int] == row@);
        if row.len() == 0 {
            return false;
        }
        let mut j: usize = 0;
        while j < row.len()
            invariant
                i < cs.len(),
                none == cs.len(),
                c == rows(cs@),
                c.len() == cs.len(),
                c[i as int] == row@,
                comp.len() == n,
                j <= row.len(),
                forall|i1: int| 0 <= i1 <= i ==> (#[trigger] c[i1]).len() > 0,
                forall|i1: int, j1: int|
                    0 <= i1 < c.len() && 0 <= j1 < c[i1].len() && before(i1, j1, i as int, j as int) ==> #[trigger] c[i1][j1]
                        < n && comp@[c[i1][j1] as int] == i1,
                forall|i1: int, j1: int, i2: int, j2: int|
                    0 <= i1 < c.len() && 0 <= j1 < c[i1].len() && 0 <= i2 < c.len() && 0 <= j2 < c[i2].len() && before(
                        i1,
                        j1,
                        i as int,
                        j as int,
                    ) && before(i2, j2, i as int, j as int) && #[trigger] c[i1][j1] == #[trigger] c[i2][j2] ==> i1 == i2 && j1
                        == j2,
                forall|x: int|
                    0 <= x < n && #[trigger] comp@[x] != none ==> comp@[x] <= i && exists|j1: int|
                        0 <= j1 < c[comp@[x] as int].len() && before(comp@[x] as int, j1, i as int, j as int)
                            && #[trigger] c[comp@[x] as int][j1] == x,
            decreases row.len() - j,
        {
            let x = row[j];
            assert(c[i as int][j as int] == x);
            if x >= n {
                return false;
            }
            if comp[x] != none {
                proof {
                    let ci = comp@[x as int] as int;
                    let j1 = choose|j1: int|
                        0 <= j1 < c[ci].len() && before(ci, j1, i as int, j as int) && #[trigger] c[ci][j1] == x;
                    assert(c[ci][j1] == c[i as int][j as int]);
                }
                return false;
            }
            let ghost comp0 = comp@;
            comp.set(x, i);
            proof {
                assert forall|i1: int, j1: int|
                    0 <= i1 < c.len() && 0 <= j1 < c[i1].len() && before(i1, j1, i as int, j + 1) implies #[trigger] c[i1][j1]
                        < n && comp@[c[i1][j1] as int] == i1 by {
                    if before(i1, j1, i as int, j as int) {
                        assert(comp0[c[i1][j1] as int] == i1);
                        assert(c[i1][j1] != x);
                    }
                }
                assert forall|i1: int, j1: int, i2: int, j2: int|
                    0 <= i1 < c.len() && 0 <= j1 < c[i1].len() && 0 <= i2 < c.len() && 0 <= j2 < c[i2].len() && before(
                        i1,
                        j1,
                        i as int,
                        j + 1,
                    ) && before(i2, j2, i as int, j + 1) && #[trigger] c[i1][j1] == #[trigger] c[i2][j2] implies i1 == i2
                    && j1 == j2 by {
                    if before(i1, j1, i as int, j as int) {
                        assert(comp0[c[i1][j1] as int] == i1);
                    }
                    if before(i2, j2, i as int, j as int) {
                        assert(comp0[c[i2][j2] as int] == i2);
                    }
                }
                assert forall|y: int|
                    0 <= y < n && #[trigger] comp@[y] != none implies comp@[y] <= i && exists|j1: int|
                        0 <= j1 < c[comp@[y] as int].len() && before(comp@[y] as int, j1, i as int, j + 1)
                            && #[trigger] c[comp@[y] as int][j1] == y by {
                    if y == x as int {
                        assert(c[i as int][j as int] == y);
                    } else {
                        assert(comp0[y] == comp@[y]);
                        let j1 = choose|j1: int|
                            0 <= j1 < c[comp0[y] as int].len() && before(comp0[y] as int, j1, i as int, j as int)
                                && #[trigger] c[comp0[y] as int][j1] == y;
                        assert(c[comp@[y] as int][j1] == y);
                    }
                }
            }
            j += 1;
        }
        proof {
            assert forall|i1: int, j1: int|
                0 <= i1 < c.len() && 0 <= j1 < c[i1].len() implies before(i1, j1, i + 1, 0) == before(
                i1,
                j1,
                i as int,
                row.len() as int,
            ) by {}
            assert forall|x: int|
                0 <= x < n && #[trigger] comp@[x] != none implies comp@[x] < i + 1 && exists|j1: int|
                    0 <= j1 < c[comp@[x] as int].len() && #[trigger] c[comp@[x] as int][j1] == x by {
                let j1 = choose|j1: int|
                    0 <= j1 < c[comp@[x] as int].len() && before(comp@[x] as int, j1, i as int, row.len() as int)
                        && #[trigger] c[comp@[x] as int][j1] == x;
            }
        }
        i += 1;
    }
    // Each node lies in the component `comp[x]`, and in no other.
    let mut v: usize = 0;
    while v < n
        invariant
            v <= n,
            none == cs.len(),
            c == rows(cs@),
            c.len() == cs.len(),
            comp.len() == n,
            forall|i1: int, j1: int|
                0 <= i1 < c.len() && 0 <= j1 < c[i1].len() ==> #[trigger] c[i1][j1] < n && comp@[c[i1][j1] as int] == i1,
            forall|q: int| 0 <= q < v ==> #[trigger] comp@[q] != none,
        decreases n - v,
    {
        if comp[v] == none {
            proof {
                if in_some(c, v) {
                    let i1 = choose|i1: int| 0 <= i1 < c.len() && #[trigger] c[i1].contains(v);
                    let j1 = choose|j1: int| 0 <= j1 < c[i1].len() && #[trigger] c[i1][j1] == v;
                    assert(comp@[c[i1][j1] as int] == i1);
                }
            }
            return false;
        }
        v += 1;
    }
    proof {
        assert forall|v: usize| v < n implies #[trigger] in_some(c, v) by {
            assert(comp@[v as int] != none);
            let ci = comp@[v as int] as int;
            let j1 = choose|j1: int| 0 <= j1 < c[ci].len() && #[trigger] c[ci][j1] == v;
            assert(c[ci].contains(v));
        }
        assert forall|x: usize, y: usize| x < n && y < n implies together(c, x, y) == (comp@[x as int] == comp@[y as int]) by {
            if together(c, x, y) {
                let i1 = choose|i1: int| 0 <= i1 < c.len() && #[trigger] c[i1].contains(x) && c[i1].contains(y);
                let jx = choose|j1: int| 0 <= j1 < c[i1].len() && #[trigger] c[i1][j1] == x;
                let jy = choose|j1: int| 0 <= j1 < c[i1].len() && #[trigger] c[i1][j1] == y;
                assert(comp@[c[i1][jx] as int] == i1);
                assert(comp@[c[i1][jy] as int] == i1);
            }
            if comp@[x as int] == comp@[y as int] {
                let ci = comp@[x as int] as int;
                assert(comp@[x as int] != none);
                assert(comp@[y as int] != none);
                let jx = choose|j1: int| 0 <= j1 < c[ci].len() && #[trigger] c[ci][j1] == x;
                let jy = choose|j1: int| 0 <= j1 < c[ci].len() && #[trigger] c[ci][j1] == y;
                assert(c[ci].contains(x) && c[ci].contains(y));
            }
        }
    }
    let ghost b = bool_rows(m@);
    let mut x: usize = 0;
    while x < n
        invariant
            x <= n,
            c == rows(cs@),
            b == bool_rows(m@),
            is_reach_matrix(b, a, n as nat),
            comp.len() == n,
            forall|x1: usize, y1: usize| x1 < n && y1 < n ==> together(c, x1, y1) == (comp@[x1 as int] == comp@[y1 as int]),
            forall|x1: usize, y1: usize|
                x1 < x && y1 < n ==> (together(c, x1, y1) <==> #[trigger] mutual(a, n as nat, x1, y1)),
        decreases n - x,
    {
        let mut y: usize = 0;
        while y < n
            invariant
                x < n,
                y <= n,
                c == rows(cs@),
                b == bool_rows(m@),
                is_reach_matrix(b, a, n as nat),
                comp.len() == n,
                forall|x1: usize, y1: usize| x1 < n && y1 < n ==> together(c, x1, y1) == (comp@[x1 as int] == comp@[y1 as int]),
                forall|x1: usize, y1: usize|
                    x1 < x && y1 < n ==> (together(c, x1, y1) <==> #[trigger] mutual(a, n as nat, x1, y1)),
                forall|y1: usize| y1 < y ==> (together(c, x, y1) <==> #[trigger] mutual(a, n as nat, x, y1)),
            decreases n - y,
        {
            assert(b[x as int] == m@[x as int]@);
            assert(b[y as int] == m@[y as int]@);
            assert(b[x as int][y as int] == reach(a, n as nat, x, y));
            assert(b[y as int][x as int] == reach(a, n as nat, y, x));
            let same = comp[x] == comp[y];
            let mu = m[x][y] && m[y][x];
            if same != mu {
                proof {
                    assert(together(c, x, y) == same);
                    assert(mutual(a, n as nat, x, y) == mu);
                }
                return false;
            }
            y += 1;
        }
        x += 1;
    }
    true
}

// ---------------------------------------------------------------------------
// Components by least member
// ---------------------------------------------------------------------------

/// The first node among `k..n` that shares a component with `w` (`w` itself
/// when there is none).
pub open spec fn first_mutual(adj: Seq<Seq<usize>>, n: nat, w: usize, k: nat) -> usize
    decreases n - k,
{
    if k >= n {
        w
    } else if mutual(adj, n, k as usize, w) {
        k as usize
    } else {
        first_mutual(adj, n, w, k + 1)
    }
}

/// The least node in the component of `w`.
pub open spec fn leader(adj: Seq<Seq<usize>>, n: nat, w: usize) -> usize {
    first_mutual(adj, n, w, 0)
}

proof fn lemma_first_mutual(adj: Seq<Seq<usize>>, n: nat, w: usize, k: nat)
    requires
        w < n,
        n <= usize::MAX + 1,
        k <= w,
        forall|u: usize| u < k ==> !#[trigger] mutual(adj, n, u, w),
    ensures
        first_mutual(adj, n, w, k) <= w,
        mutual(adj, n, first_mutual(adj, n, w, k), w),
        forall|u: usize| u < first_mutual(adj, n, w, k) ==> !#[trigger] mutual(adj, n, u, w),
    decreases n - k,
{
    lemma_reach_refl(adj, n, w);
    if !mutual(adj, n, k as usize, w) {
        assert(k != w);
        assert forall|u: usize| u < k + 1 implies !#[trigger] mutual(adj, n, u, w) by {
            if u == k as usize {
            }
        }
        lemma_first_mutual(adj, n, w, k + 1);
    }
}

/// The leader of `w` is the least node that `w` shares a component with.
pub proof fn lemma_leader(adj: Seq<Seq<usize>>, n: nat, w: usize)
    requires
        w < n,
        n <= usize::MAX + 1,
    ensures
        leader(adj, n, w) <= w,
        mutual(adj, n, leader(adj, n, w), w),
        forall|u: usize| u < leader(adj, n, w) ==> !#[trigger] mutual(adj, n, u, w),
{
    lemma_first_mutual(adj, n, w, 0);
}

/// Nodes that reach each other have the same leader.
pub proof fn lemma_leader_eq(adj: Seq<Seq<usize>>, n: nat, x: usize, y: usize)
    requires
        x < n,
        y < n,
        n <= usize::MAX + 1,
        mutual(adj, n, x, y),
    ensures
        leader(adj, n, x) == leader(adj, n, y),
{
    lemma_leader(adj, n, x);
    lemma_leader(adj, n, y);
    let lx = leader(adj, n, x);
    let ly = leader(adj, n, y);
    lemma_reach_trans(adj, n, lx, x, y);
    lemma_reach_trans(adj, n, y, x, lx);
    lemma_reach_trans(adj, n, ly, y, x);
    lemma_reach_trans(adj, n, x, y, ly);
    assert(mutual(adj, n, lx, y));
    assert(mutual(adj, n, ly, x));
}

/// The nodes among `0..k` whose leader is `v`, in increasing order.
pub open spec fn members_upto(adj: Seq<Seq<usize>>, n: nat, v: usize, k: nat) -> Seq<usize>
    decreases k,
{
    if k == 0 {
        seq![]
    } else {
        let s = members_upto(adj, n, v, (k - 1) as nat);
        if leader(adj, n, (k - 1) as usize) == v {
            s.push((k - 1) as usize)
        } else {
            s
        }
    }
}

/// The nodes among `0..k` that lead their component, in increasing order.
pub open spec fn roots_upto(adj: Seq<Seq<usize>>, n: nat, k: nat) -> Seq<usize>
    decreases k,
{
    if k == 0 {
        seq![]
    } else {
        let s = roots_upto(adj, n, (k - 1) as nat);
        if leader(adj, n, (k - 1) as usize) == (k - 1) as usize {
            s.push((k - 1) as usize)
        } else {
            s
        }
    }
}

/// The components led by the nodes among `0..k`, by leader.
pub open spec fn partition_upto(adj: Seq<Seq<usize>>, n: nat, k: nat) -> Seq<Seq<usize>>
    decreases k,
{
    if k == 0 {
        seq![]
    } else {
        let s = partition_upto(adj, n, (k - 1) as nat);
        if leader(adj, n, (k - 1) as usize) == (k - 1) as usize {
            s.push(members_upto(adj, n, (k - 1) as usize, n))
        } else {
            s
        }
    }
}

/// The strongly connected components, ordered by their least node, each in
/// increasing order.
pub open spec fn leader_partition(adj: Seq<Seq<usize>>, n: nat) -> Seq<Seq<usize>> {
    partition_upto(adj, n, n)
}

proof fn lemma_members(adj: Seq<Seq<usize>>, n: nat, v: usize, k: nat)
    requires
        k <= usize::MAX + 1,
    ensures
        forall|j: int|
            0 <= j < members_upto(adj, n, v, k).len() ==> #[trigger] members_upto(adj, n, v, k)[j] < k && leader(
                adj,
                n,
                members_upto(adj, n, v, k)[j],
            ) == v,
        forall|j1: int, j2: int|
            0 <= j1 < j2 < members_upto(adj, n, v, k).len() ==> #[trigger] members_upto(adj, n, v, k)[j1]
                < #[trigger] members_upto(adj, n, v, k)[j2],
        forall|w: usize| w < k && leader(adj, n, w) == v ==> #[trigger] members_upto(adj, n, v, k).contains(w),
    decreases k,
{
    if k > 0 {
        let k1 = (k - 1) as nat;
        lemma_members(adj, n, v, k1);
        let s = members_upto(adj, n, v, k1);
        let t = members_upto(adj, n, v, k);
        assert forall|w: usize| w < k && leader(adj, n, w) == v implies #[trigger] t.contains(w) by {
            if w < k1 {
                assert(s.contains(w));
                let y = choose|y: int| 0 <= y < s.len() && s[y] == w;
                assert(t[y] == w);
            } else {
                assert(t[t.len() - 1] == w);
            }
        }
    }
}

proof fn lemma_roots(adj: Seq<Seq<usize>>, n: nat, k: nat)
    requires
        k <= usize::MAX + 1,
    ensures
        forall|j: int|
            0 <= j < roots_upto(adj, n, k).len() ==> #[trigger] roots_upto(adj, n, k)[j] < k && leader(
                adj,
                n,
                roots_upto(adj, n, k)[j],
            ) == roots_upto(adj, n, k)[j],
        forall|j1: int, j2: int|
            0 <= j1 < j2 < roots_upto(adj, n, k).len() ==> #[trigger] roots_upto(adj, n, k)[j1]
                < #[trigger] roots_upto(adj, n, k)[j2],
        forall|w: usize| w < k && leader(adj, n, w) == w ==> #[trigger] roots_upto(adj, n, k).contains(w),
        partition_upto(adj, n, k).len() == roots_upto(adj, n, k).len(),
        forall|j: int|
            0 <= j < partition_upto(adj, n, k).len() ==> #[trigger] partition_upto(adj, n, k)[j] == members_upto(
                adj,
                n,
                roots_upto(adj, n, k)[j],
                n,
            ),
    decreases k,
{
    if k > 0 {
        let k1 = (k - 1) as nat;
        lemma_roots(adj, n, k1);
        let s = roots_upto(adj, n, k1);
        let t = roots_upto(adj, n, k);
        assert forall|w: usize| w < k && leader(adj, n, w) == w implies #[trigger] t.contains(w) by {
            if w < k1 {
                assert(s.contains(w));
                let y = choose|y: int| 0 <= y < s.len() && s[y] == w;
                assert(t[y] == w);
            } else {
                assert(t[t.len() - 1] == w);
            }
        }
    }
}

/// The components by least member are the strongly connected components.
pub proof fn lemma_leader_partition(adj: Seq<Seq<usize>>, n: nat)
    requires
        n <= usize::MAX + 1,
    ensures
        is_scc_partition(adj, n, leader_partition(adj, n)),
{
    let p = leader_partition(adj, n);
    let r = roots_upto(adj, n, n);
    lemma_roots(adj, n, n);
    assert forall|i: int| 0 <= i < p.len() implies (#[trigger] p[i]).len() > 0 by {
        lemma_members(adj, n, r[i], n);
        assert(members_upto(adj, n, r[i], n).contains(r[i]));
    }
    assert forall|i: int, j: int| 0 <= i < p.len() && 0 <= j < p[i].len() implies #[trigger] p[i][j] < n by {
        lemma_members(adj, n, r[i], n);
    }
    assert forall|i1: int, j1: int, i2: int, j2: int|
        0 <= i1 < p.len() && 0 <= j1 < p[i1].len() && 0 <= i2 < p.len() && 0 <= j2 < p[i2].len() && #[trigger] p[i1][j1]
            == #[trigger] p[i2][j2] implies i1 == i2 && j1 == j2 by {
        lemma_members(adj, n, r[i1], n);
        lemma_members(adj, n, r[i2], n);
        assert(r[i1] == r[i2]);
        if i1 < i2 {
            assert(r[i1] < r[i2]);
        }
        if i2 < i1 {
            assert(r[i2] < r[i1]);
        }
        let m = members_upto(adj, n, r[i1], n);
        if j1 < j2 {
            assert(m[j1] < m[j2]);
        }
        if j2 < j1 {
            assert(m[j2] < m[j1]);
        }
    }
    assert forall|v: usize| v < n implies #[trigger] in_some(p, v) by {
        lemma_leader(adj, n, v);
        let l = leader(adj, n, v);
        lemma_leader(adj, n, l);
        lemma_leader_eq(adj, n, l, v);
        assert(r.contains(l));
        let i = choose|i: int| 0 <= i < r.len() && r[i] == l;
        lemma_members(adj, n, l, n);
        assert(p[i].contains(v));
    }
    assert forall|x: usize, y: usize| x < n && y < n implies (together(p, x, y) <==> mutual(adj, n, x, y)) by {
        lemma_leader(adj, n, x);
        lemma_leader(adj, n, y);
        if together(p, x, y) {
            let i = choose|i: int| 0 <= i < p.len() && #[trigger] p[i].contains(x) && p[i].contains(y);
            lemma_members(adj, n, r[i], n);
            let m = p[i];
            let jx = choose|j: int| 0 <= j < m.len() && m[j] == x;
            let jy = choose|j: int| 0 <= j < m.len() && m[j] == y;
            let l = r[i];
            assert(leader(adj, n, x) == l && leader(adj, n, y) == l);
            lemma_reach_trans(adj, n, x, l, y);
            lemma_reach_trans(adj, n, y, l, x);
        }
        if mutual(adj, n, x, y) {
            lemma_leader_eq(adj, n, x, y);
            let l = leader(adj, n, x);
            lemma_leader(adj, n, l);
            lemma_leader_eq(adj, n, l, x);
            assert(r.contains(l));
            let i = choose|i: int| 0 <= i < r.len() && r[i] == l;
            lemma_members(adj, n, l, n);
            assert(p[i].contains(x) && p[i].contains(y));
        }
    }
}

/// The strongly connected components ordered by least member, from the
/// reachability matrix `m`.
fn leader_components(m: &Vec<Vec<bool>>, n: usize, Ghost(a): Ghost<Seq<Seq<usize>>>) -> (r: Vec<Vec<usize>>)
    requires
        is_reach_matrix(bool_rows(m@), a, n as nat),
    ensures
        rows(r@) == leader_partition(a, n as nat),
{
    let ghost b = bool_rows(m@);
    let ghost nn = n as nat;
    assert forall|q: int| 0 <= q < n implies #[trigger] m@[q].len() == n by {
        assert(b[q] == m@[q]@);
    }
    let mut lead: Vec<usize> = Vec::new();
    let mut w: usize = 0;
    while w < n
        invariant
            w <= n,
            b == bool_rows(m@),
            is_reach_matrix(b, a, nn),
            nn == n,
            m.len() == n,
            forall|q: int| 0 <= q < n ==> #[trigger] m@[q].len() == n,
            lead.len() == w,
            forall|q: int| 0 <= q < w ==> #[trigger] lead@[q] == leader(a, nn, q as usize),
        decreases n - w,
    {
        proof {
            lemma_reach_refl(a, nn, w);
        }
        let mut u: usize = 0;
        loop
            invariant
                w < n,
                u <= w,
                b == bool_rows(m@),
                is_reach_matrix(b, a, nn),
                nn == n,
                m.len() == n,
                forall|q: int| 0 <= q < n ==> #[trigger] m@[q].len() == n,
                mutual(a, nn, w, w),
                leader(a, nn, w) == first_mutual(a, nn, w, u as nat),
            ensures
                u <= w,
                leader(a, nn, w) == u,
            decreases n - u,
        {
            assert(b[u as int] == m@[u as int]@);
            assert(b[w as int] == m@[w as int]@);
            assert(b[u as int][w as int] == reach(a, nn, u, w));
            assert(b[w as int][u as int] == reach(a, nn, w, u));
            let fwd = m[u][w];
            let bwd = m[w][u];
            if fwd && bwd {
                break;
            }
            assert(u != w);
            u += 1;
        }
        lead.push(u);
        w += 1;
    }
    let mut out: Vec<Vec<usize>> = Vec::new();
    let mut v: usize = 0;
    while v < n
        invariant
            v <= n,
            nn == n,
            lead.len() == n,
            forall|q: int| 0 <= q < n ==> #[trigger] lead@[q] == leader(a, nn, q as usize),
            rows(out@) == partition_upto(a, nn, v as nat),
        decreases n - v,
    {
        if lead[v] == v {
            let mut comp: Vec<usize> = Vec::new();
            let mut w: usize = 0;
            while w < n
                invariant
                    w <= n,
                    v < n,
                    nn == n,
                    lead.len() == n,
                    forall|q: int| 0 <= q < n ==> #[trigger] lead@[q] == leader(a, nn, q as usize),
                    comp@ == members_upto(a, nn, v, w as nat),
                decreases n - w,
            {
                if lead[w] == v {
                    comp.push(w);
                }
                w += 1;
            }
            let ghost before = rows(out@);
            out.push(comp);
            assert(rows(out@) =~= before.push(comp@));
        }
        v += 1;
    }
    out
}

/// Tarjan's components `t` where they are the strongly connected
/// components, else those components ordered by least member.
pub open spec fn checked_components(t: Seq<Seq<usize>>, adj: Seq<Seq<usize>>, n: nat) -> Seq<Seq<usize>> {
    if is_scc_partition(adj, n, t) {
        t
    } else {
        leader_partition(adj, n)
    }
}

/// The strongly connected components are `t` when `t` passes the check
/// against the graph's reachability, else they are computed by least member.
pub(crate) fn confirm_components(t: Vec<Vec<usize>>, adj: &Vec<Vec<usize>>, n: usize) -> (r: Vec<Vec<usize>>)
    ensures
        rows(r@) == checked_components(rows(t@), rows(adj@), n as nat),
        is_scc_partition(rows(adj@), n as nat, rows(r@)),
{
    let m = reach_matrix(adj, n);
    if check_partition(&m, n, &t, Ghost(rows(adj@))) {
        t
    } else {
        let r = leader_components(&m, n, Ghost(rows(adj@)));
        proof {
            lemma_leader_partition(rows(adj@), n as nat);
        }
        r
    }
}

} // verus!
