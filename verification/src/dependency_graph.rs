//! The task-dependency graph: note A depends on note B when a checklist
//! item of A carries `@B`. Each such `@B` is kept as a positioned occurrence
//! for error reports.
use vstd::prelude::*;
use crate::parser::{checklist_items, items_upto, parse_checklist_items, ItemModel, TargetModel};
use crate::reconcile::observe::NoteSource;
use crate::text::{chars_of, lines, split_lines, string_from_chars, views};

verus! {

/// One `@ID` of a checklist item: the edge it makes and where it stands.
#[derive(Debug)]
pub struct CycleEdgeOccurrence {
    pub from_note_id: String,
    pub to_note_id: String,
    pub file_path: String,
    /// 0-based line index within the note.
    pub line: usize,
    /// Byte offset of `@` within the line.
    pub byte_start: u32,
    /// Byte offset past the last digit.
    pub byte_end: u32,
    /// The full source line.
    pub line_text: String,
}

/// The graph: node IDs, adjacency by node index, and edge occurrences.
#[derive(Debug)]
pub struct DependencyGraph {
    pub nodes: Vec<String>,
    /// `adj[i]`: indices of the nodes that node `i` depends on, without
    /// repeats, in order of first occurrence.
    pub adj: Vec<Vec<usize>>,
    pub occurrences: Vec<CycleEdgeOccurrence>,
}

pub struct OccModel {
    pub from: Seq<char>,
    pub to: Seq<char>,
    pub path: Seq<char>,
    pub line: int,
    pub byte_start: u32,
    pub byte_end: u32,
    pub text: Seq<char>,
}

impl View for CycleEdgeOccurrence {
    type V = OccModel;

    open spec fn view(&self) -> OccModel {
        OccModel {
            from: self.from_note_id@,
            to: self.to_note_id@,
            path: self.file_path@,
            line: self.line as int,
            byte_start: self.byte_start,
            byte_end: self.byte_end,
            text: self.line_text@,
        }
    }
}

pub open spec fn occ_models(v: Seq<CycleEdgeOccurrence>) -> Seq<OccModel> {
    v.map_values(|o: CycleEdgeOccurrence| o@)
}

pub open spec fn ids_of(s: Seq<NoteSource>) -> Seq<Seq<char>> {
    s.map_values(|x: NoteSource| x.id@)
}

pub open spec fn picked(srcs: Seq<NoteSource>, keep: Seq<usize>) -> Seq<NoteSource> {
    keep.map_values(|i: usize| srcs[i as int])
}

/// The sources that the graph takes: each ID's first source.
pub open spec fn kept_upto(srcs: Seq<NoteSource>, n: int) -> Seq<NoteSource>
    decreases n,
{
    if n <= 0 {
        seq![]
    } else {
        let prev = kept_upto(srcs, n - 1);
        if ids_of(prev).contains(srcs[n - 1].id@) {
            prev
        } else {
            prev.push(srcs[n - 1])
        }
    }
}

pub open spec fn kept(srcs: Seq<NoteSource>) -> Seq<NoteSource> {
    kept_upto(srcs, srcs.len() as int)
}

/// The occurrences of one item's targets.
pub open spec fn item_occs(src: NoteSource, it: ItemModel) -> Seq<OccModel> {
    it.targets.map_values(
        |t: TargetModel|
            OccModel {
                from: src.id@,
                to: t.id,
                path: src.file_path@,
                line: it.line_idx,
                byte_start: t.byte_start,
                byte_end: t.byte_end,
                text: lines(src.content@)[it.line_idx],
            },
    )
}

/// The occurrences of the first `n` items of a note.
pub open spec fn note_occs_upto(src: NoteSource, items: Seq<ItemModel>, n: int) -> Seq<OccModel>
    decreases n,
{
    if n <= 0 {
        seq![]
    } else {
        note_occs_upto(src, items, n - 1) + item_occs(src, items[n - 1])
    }
}

pub open spec fn note_occs(src: NoteSource) -> Seq<OccModel> {
    let items = checklist_items(src.content@);
    note_occs_upto(src, items, items.len() as int)
}

/// The occurrences of the first `n` kept notes.
pub open spec fn occs_upto(ks: Seq<NoteSource>, n: int) -> Seq<OccModel>
    decreases n,
{
    if n <= 0 {
        seq![]
    } else {
        occs_upto(ks, n - 1) + note_occs(ks[n - 1])
    }
}

/// `ids` extended by the targets of `occs[..n]` it lacks, in order.
pub open spec fn with_targets(ids: Seq<Seq<char>>, occs: Seq<OccModel>, n: int) -> Seq<Seq<char>>
    decreases n,
{
    if n <= 0 {
        ids
    } else {
        let prev = with_targets(ids, occs, n - 1);
        if prev.contains(occs[n - 1].to) {
            prev
        } else {
            prev.push(occs[n - 1].to)
        }
    }
}

/// The first index of `id` in `nodes`.
pub open spec fn index_of(nodes: Seq<Seq<char>>, id: Seq<char>, k: int) -> int
    decreases nodes.len() - k,
{
    if k < 0 || k >= nodes.len() {
        nodes.len() as int
    } else if nodes[k] == id {
        k
    } else {
        index_of(nodes, id, k + 1)
    }
}

/// The distinct target indices of `occs[..n]`, in order.
pub open spec fn targets_of(nodes: Seq<Seq<char>>, occs: Seq<OccModel>, n: int) -> Seq<usize>
    decreases n,
{
    if n <= 0 {
        seq![]
    } else {
        let prev = targets_of(nodes, occs, n - 1);
        let t = index_of(nodes, occs[n - 1].to, 0) as usize;
        if prev.contains(t) {
            prev
        } else {
            prev.push(t)
        }
    }
}

pub open spec fn rows(v: Seq<Vec<usize>>) -> Seq<Seq<usize>> {
    v.map_values(|r: Vec<usize>| r@)
}

pub struct GraphModel {
    pub nodes: Seq<Seq<char>>,
    pub adj: Seq<Seq<usize>>,
    pub occs: Seq<OccModel>,
}

impl View for DependencyGraph {
    type V = GraphModel;

    open spec fn view(&self) -> GraphModel {
        GraphModel {
            nodes: crate::reconcile::ast::names(self.nodes@),
            adj: rows(self.adj@),
            occs: occ_models(self.occurrences@),
        }
    }
}

/// The graph of a set of note files.
pub open spec fn graph_of(srcs: Seq<NoteSource>) -> GraphModel {
    let ks = kept(srcs);
    let ids = ids_of(ks);
    let occs = occs_upto(ks, ks.len() as int);
    let nodes = with_targets(ids, occs, occs.len() as int);
    GraphModel {
        nodes,
        adj: Seq::new(
            nodes.len(),
            |i: int|
                if i < ks.len() {
                    let no = note_occs(ks[i]);
                    targets_of(nodes, no, no.len() as int)
                } else {
                    seq![]
                },
        ),
        occs,
    }
}


proof fn lemma_item_lines(ls: Seq<Seq<char>>, n: int)
    requires
        0 <= n <= ls.len(),
    ensures
        forall|k: int| 0 <= k < items_upto(ls, n).len() ==> 0 <= #[trigger] items_upto(ls, n)[k].line_idx < n,
    decreases n,
{
    if n > 0 {
        lemma_item_lines(ls, n - 1);
        let prev = items_upto(ls, n - 1);
        if crate::parser::outside_fence(ls, n - 1) && crate::parser::is_checklist_line(ls[n - 1]) {
            let cur = prev.push(crate::parser::item_of_line(ls[n - 1], n - 1));
            assert(items_upto(ls, n) == cur);
            assert forall|k: int| 0 <= k < cur.len() implies 0 <= #[trigger] cur[k].line_idx < n by {
                if k < prev.len() {
                    assert(cur[k] == prev[k]);
                }
            }
        }
    }
}

/// The occurrences of one note's checklist item targets.
fn push_note_occs(src: &NoteSource, out: &mut Vec<CycleEdgeOccurrence>)
    ensures
        occ_models(final(out)@) == occ_models(old(out)@) + note_occs(*src),
{
    let cs = chars_of(src.content.as_str());
    let ls = split_lines(&cs);
    let ghost lv = views(ls@);
    assert(lv == lines(src.content@));
    assert(lv.len() == ls.len());
    let items = parse_checklist_items(src.content.as_str());
    let ghost im = crate::parser::item_models(items@);
    proof {
        lemma_item_lines(lv, lv.len() as int);
    }
    let ghost start = occ_models(out@);
    let mut k: usize = 0;
    while k < items.len()
        invariant
            k <= items.len(),
            lv == views(ls@),
            lv == lines(src.content@),
            lv.len() == ls.len(),
            im == crate::parser::item_models(items@),
            im == checklist_items(src.content@),
            im.len() == items.len(),
            forall|q: int| 0 <= q < im.len() ==> 0 <= #[trigger] im[q].line_idx < lv.len(),
            occ_models(out@) == start + note_occs_upto(*src, im, k as int),
        decreases items.len() - k,
    {
        let it = &items[k];
        assert(im[k as int] == it@);
        let line = it.line_idx;
        assert(0 <= im[k as int].line_idx < lv.len());
        let text = string_from_chars(&ls[line]);
        assert(lv[line as int] == ls@[line as int]@);
        assert(text@ == lv[line as int]);
        let ghost base = occ_models(out@);
        let ghost add = item_occs(*src, it@);
        match &it.kind {
            crate::parser::ChecklistItemKind::Local => {
                assert(add =~= Seq::<OccModel>::empty());
            },
            crate::parser::ChecklistItemKind::Ref { targets } => {
                let mut j: usize = 0;
                while j < targets.len()
                    invariant
                        j <= targets.len(),
                        add == item_occs(*src, it@),
                        it@.targets == targets@.map_values(|t: crate::parser::RefTarget| t@),
                        text@ == lines(src.content@)[it@.line_idx],
                        line == it.line_idx,
                        occ_models(out@) == base + add.take(j as int),
                    decreases targets.len() - j,
                {
                    let t = &targets[j];
                    let o = CycleEdgeOccurrence {
                        from_note_id: src.id.clone(),
                        to_note_id: t.target_id.clone(),
                        file_path: src.file_path.clone(),
                        line,
                        byte_start: t.byte_start,
                        byte_end: t.byte_end,
                        line_text: text.clone(),
                    };
                    let ghost before = occ_models(out@);
                    assert(o@ == add[j as int]);
                    out.push(o);
                    assert(occ_models(out@) =~= before.push(add[j as int]));
                    assert(add.take(j + 1) =~= add.take(j as int).push(add[j as int]));
                    j += 1;
                }
                assert(add.take(targets.len() as int) =~= add);
            },
        }
        assert(occ_models(out@) =~= base + add);
        assert(start + note_occs_upto(*src, im, k + 1) =~= start + note_occs_upto(*src, im, k as int) + add);
        k += 1;
    }
}

pub(crate) fn index_of_exec(nodes: &Vec<String>, id: &str) -> (r: usize)
    ensures
        r as int == index_of(crate::reconcile::ast::names(nodes@), id@, 0),
        r <= nodes.len(),
        r < nodes.len() ==> nodes@[r as int]@ == id@,
        r == nodes.len() ==> !crate::reconcile::ast::names(nodes@).contains(id@),
{
    let ghost nm = crate::reconcile::ast::names(nodes@);
    let mut k: usize = 0;
    while k < nodes.len()
        invariant
            k <= nodes.len(),
            nm == crate::reconcile::ast::names(nodes@),
            index_of(nm, id@, 0) == index_of(nm, id@, k as int),
            forall|q: int| 0 <= q < k ==> nm[q] != id@,
        decreases nodes.len() - k,
    {
        assert(nm[k as int] == nodes@[k as int]@);
        if crate::text::str_eq(nodes[k].as_str(), id) {
            return k;
        }
        k += 1;
    }
    k
}

pub(crate) fn contains_usize(v: &Vec<usize>, x: usize) -> (r: bool)
    ensures
        r == v@.contains(x),
{
    let mut k: usize = 0;
    while k < v.len()
        invariant
            k <= v.len(),
            forall|q: int| 0 <= q < k ==> v@[q] != x,
        decreases v.len() - k,
    {
        if v[k] == x {
            return true;
        }
        k += 1;
    }
    false
}

pub(crate) fn kept_sources(notes: &[NoteSource]) -> (r: (Vec<usize>, Vec<String>))
    ensures
        r.0.len() == r.1.len(),
        forall|q: int| 0 <= q < r.0.len() ==> #[trigger] r.0@[q] < notes.len(),
        kept(notes@) == picked(notes@, r.0@),
        crate::reconcile::ast::names(r.1@) == ids_of(kept(notes@)),
{
    let mut keep: Vec<usize> = Vec::new();
    let mut ids: Vec<String> = Vec::new();
    let mut k: usize = 0;
    assert(picked(notes@, keep@) =~= Seq::<NoteSource>::empty());
    assert(crate::reconcile::ast::names(ids@) =~= Seq::<Seq<char>>::empty());
    while k < notes.len()
        invariant
            k <= notes.len(),
            keep.len() == ids.len(),
            forall|q: int| 0 <= q < keep.len() ==> #[trigger] keep@[q] < notes.len(),
            kept_upto(notes@, k as int) == picked(notes@, keep@),
            crate::reconcile::ast::names(ids@) == ids_of(kept_upto(notes@, k as int)),
        decreases notes.len() - k,
    {
        let ghost prev = kept_upto(notes@, k as int);
        let i = index_of_exec(&ids, notes[k].id.as_str());
        if i == ids.len() {
            let ghost kb = keep@;
            let ghost ib = crate::reconcile::ast::names(ids@);
            keep.push(k);
            ids.push(notes[k].id.clone());
            assert(picked(notes@, keep@) =~= picked(notes@, kb).push(notes@[k as int]));
            assert(crate::reconcile::ast::names(ids@) =~= ib.push(notes@[k as int].id@));
            assert(ids_of(prev.push(notes@[k as int])) =~= ids_of(prev).push(notes@[k as int].id@));
            assert(kept_upto(notes@, k + 1) == prev.push(notes@[k as int]));
        } else {
            assert(crate::reconcile::ast::names(ids@)[i as int] == notes@[k as int].id@);
            assert(ids_of(prev).contains(notes@[k as int].id@));
            assert(kept_upto(notes@, k + 1) == prev);
        }
        k += 1;
    }
    (keep, ids)
}

pub open spec fn bound_end(bounds: Seq<usize>, q: int, total: int) -> int {
    if q + 1 < bounds.len() {
        bounds[q + 1] as int
    } else {
        total
    }
}

/// Each kept note's occurrences lie at `bounds[q]..bound_end(q)`.
pub open spec fn bounds_ok(bounds: Seq<usize>, all: Seq<OccModel>, ks: Seq<NoteSource>) -> bool {
    &&& bounds.len() == ks.len()
    &&& forall|q: int| 0 <= q < bounds.len() ==> #[trigger] bounds[q] <= bound_end(bounds, q, all.len() as int) <= all.len()
    &&& forall|q: int|
        0 <= q < bounds.len() ==> all.subrange(#[trigger] bounds[q] as int, bound_end(bounds, q, all.len() as int))
            == note_occs(ks[q])
}

fn collect_occurrences(notes: &[NoteSource], keep: &Vec<usize>) -> (r: (Vec<CycleEdgeOccurrence>, Vec<usize>))
    requires
        forall|q: int| 0 <= q < keep.len() ==> #[trigger] keep@[q] < notes.len(),
    ensures
        occ_models(r.0@) == occs_upto(picked(notes@, keep@), keep.len() as int),
        bounds_ok(r.1@, occ_models(r.0@), picked(notes@, keep@)),
{
    let ghost ks = picked(notes@, keep@);
    let mut occs: Vec<CycleEdgeOccurrence> = Vec::new();
    let mut bounds: Vec<usize> = Vec::new();
    let mut n: usize = 0;
    assert(occ_models(occs@) =~= Seq::<OccModel>::empty());
    while n < keep.len()
        invariant
            n <= keep.len(),
            ks == picked(notes@, keep@),
            forall|q: int| 0 <= q < keep.len() ==> #[trigger] keep@[q] < notes.len(),
            occ_models(occs@) == occs_upto(ks, n as int),
            bounds_ok(bounds@, occ_models(occs@), ks.take(n as int)),
        decreases keep.len() - n,
    {
        let ghost before = occ_models(occs@);
        let ghost bb = bounds@;
        bounds.push(occs.len());
        push_note_occs(&notes[keep[n]], &mut occs);
        proof {
            let after = occ_models(occs@);
            assert(ks[n as int] == notes@[keep@[n as int] as int]);
            assert(after == before + note_occs(ks[n as int]));
            assert(after.subrange(before.len() as int, after.len() as int) =~= note_occs(ks[n as int]));
            assert(ks.take(n + 1) =~= ks.take(n as int).push(ks[n as int]));
            assert forall|q: int| 0 <= q < bounds@.len() implies #[trigger] bounds@[q] <= bound_end(
                bounds@,
                q,
                after.len() as int,
            ) <= after.len() && after.subrange(bounds@[q] as int, bound_end(bounds@, q, after.len() as int))
                == note_occs(ks.take(n + 1)[q]) by {
                if q < n {
                    assert(bounds@[q] == bb[q]);
                    assert(bound_end(bounds@, q, after.len() as int) == bound_end(bb, q, before.len() as int));
                    assert(after.subrange(bounds@[q] as int, bound_end(bounds@, q, after.len() as int)) =~= before.subrange(
                        bb[q] as int,
                        bound_end(bb, q, before.len() as int),
                    ));
                    assert(ks.take(n + 1)[q] == ks.take(n as int)[q]);
                }
            }
        }
        n += 1;
    }
    assert(ks.take(keep.len() as int) =~= ks);
    (occs, bounds)
}

fn node_list(ids: Vec<String>, occs: &Vec<CycleEdgeOccurrence>) -> (nodes: Vec<String>)
    ensures
        crate::reconcile::ast::names(nodes@) == with_targets(
            crate::reconcile::ast::names(ids@),
            occ_models(occs@),
            occs.len() as int,
        ),
        nodes.len() >= ids.len(),
        forall|q: int| 0 <= q < occs.len() ==> crate::reconcile::ast::names(nodes@).contains(#[trigger] occs@[q]@.to),
{
    let ghost start = crate::reconcile::ast::names(ids@);
    let ghost all = occ_models(occs@);
    let mut nodes = ids;
    let mut q: usize = 0;
    while q < occs.len()
        invariant
            q <= occs.len(),
            all == occ_models(occs@),
            nodes.len() >= start.len(),
            crate::reconcile::ast::names(nodes@) == with_targets(start, all, q as int),
            forall|j: int| 0 <= j < q ==> crate::reconcile::ast::names(nodes@).contains(#[trigger] occs@[j]@.to),
        decreases occs.len() - q,
    {
        assert(all[q as int] == occs@[q as int]@);
        let ghost nb = crate::reconcile::ast::names(nodes@);
        let i = index_of_exec(&nodes, occs[q].to_note_id.as_str());
        if i == nodes.len() {
            nodes.push(occs[q].to_note_id.clone());
            assert(crate::reconcile::ast::names(nodes@) =~= nb.push(all[q as int].to));
            assert forall|j: int| 0 <= j < q + 1 implies crate::reconcile::ast::names(nodes@).contains(
                #[trigger] occs@[j]@.to,
            ) by {
                if j < q {
                    let w = choose|w: int| 0 <= w < nb.len() && nb[w] == occs@[j]@.to;
                    assert(crate::reconcile::ast::names(nodes@)[w] == nb[w]);
                } else {
                    assert(crate::reconcile::ast::names(nodes@)[nb.len() as int] == occs@[j]@.to);
                }
            }
        } else {
            assert(nb[i as int] == all[q as int].to);
        }
        q += 1;
    }
    nodes
}

/// The dependency graph of a set of note files: the notes (each ID's first
/// file) in order, then the targets that are not notes; an edge for each
/// checklist item `@ID`.
pub fn build_dependency_graph(notes: &[NoteSource]) -> (g: DependencyGraph)
    ensures
        g@ == graph_of(notes@),
        g.adj.len() == g.nodes.len(),
        forall|i: int, j: int| 0 <= i < g.adj.len() && 0 <= j < g.adj@[i].len() ==> #[trigger] g.adj@[i]@[j] < g.nodes.len(),
{
    let (keep, ids) = kept_sources(notes);
    let ghost ks = kept(notes@);
    let (occs, bounds) = collect_occurrences(notes, &keep);
    let ghost all = occ_models(occs@);
    let nodes = node_list(ids, &occs);
    let ghost nm = crate::reconcile::ast::names(nodes@);
    let mut adj: Vec<Vec<usize>> = Vec::new();
    let mut i: usize = 0;
    while i < nodes.len()
        invariant
            i <= nodes.len(),
            nm == crate::reconcile::ast::names(nodes@),
            nm.len() == nodes.len(),
            all == occ_models(occs@),
            ks == picked(notes@, keep@),
            bounds_ok(bounds@, all, ks),
            keep.len() == ks.len(),
            keep.len() <= nodes.len(),
            adj.len() == i,
            forall|a: int|
                0 <= a < i ==> (#[trigger] adj@[a])@ == (if a < ks.len() {
                    targets_of(nm, note_occs(ks[a]), note_occs(ks[a]).len() as int)
                } else {
                    Seq::<usize>::empty()
                }),
            forall|a: int, b: int| 0 <= a < i && 0 <= b < adj@[a].len() ==> #[trigger] adj@[a]@[b] < nodes.len(),
            forall|q: int| 0 <= q < occs.len() ==> nm.contains(#[trigger] occs@[q]@.to),
        decreases nodes.len() - i,
    {
        let mut row: Vec<usize> = Vec::new();
        if i < keep.len() {
            let lo = bounds[i];
            let hi = if i + 1 < keep.len() {
                bounds[i + 1]
            } else {
                occs.len()
            };
            let ghost no = note_occs(ks[i as int]);
            assert(hi as int == bound_end(bounds@, i as int, all.len() as int));
            assert(all.subrange(lo as int, hi as int) == no);
            assert(row@ =~= targets_of(nm, no, 0));
            let mut p = lo;
            while p < hi
                invariant
                    lo <= p <= hi <= occs.len(),
                    all == occ_models(occs@),
                    nm == crate::reconcile::ast::names(nodes@),
                    nm.len() == nodes.len(),
                    all.subrange(lo as int, hi as int) == no,
                    row@ == targets_of(nm, no, p - lo),
                    forall|b: int| 0 <= b < row.len() ==> #[trigger] row@[b] < nodes.len(),
                    forall|q: int| 0 <= q < occs.len() ==> nm.contains(#[trigger] occs@[q]@.to),
                decreases hi - p,
            {
                assert(all[p as int] == occs@[p as int]@);
                assert(no[p - lo] == all[p as int]);
                let t = index_of_exec(&nodes, occs[p].to_note_id.as_str());
                proof {
                    assert(nm.contains(occs@[p as int]@.to));
                }
                if !contains_usize(&row, t) {
                    row.push(t);
                }
                p += 1;
            }
            assert(no.len() == hi - lo);
        } else {
            assert(row@ =~= Seq::<usize>::empty());
        }
        adj.push(row);
        i += 1;
    }
    let g = DependencyGraph { nodes, adj, occurrences: occs };
    assert(g@.adj =~= graph_of(notes@).adj);
    g
}

} // verus!
